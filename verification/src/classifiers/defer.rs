use vstd::prelude::*;
use crate::classifiers::ClassificationError;
use crate::classifiers::committed::CommittedClassifier;
use crate::context::{Context, ContextUpdateHistory, spec_decided, spec_decision_run};
use crate::inferencer::{spec_infer, lemma_look_back_defines_infer};
use crate::obj_list::KnownObjectList;
use crate::page::Page;
use crate::page_lock::PageLock;
use crate::schema::{
    KnownObject, get_all_dependents, get_global_independents, spec_dependents,
    spec_global_independents,
};
use crate::threading::{JobType, PendingJob};

verus! {

/// How deferral ends.
pub enum DeferralExitCase {
    /// The page range ran out before any independent page was found.
    NoAnchorFound(CommittedClassifier),
    /// An independent page was found and the pages before it were filled in.
    Successful(CommittedClassifier),
}

/// Where deferral stands after a look-ahead classification was settled.
pub enum DeferralStep {
    /// The page was not the independent it was tried as: the search goes on.
    Searching(DeferralClassifier),
    /// Deferral ended and handed back this committed classifier.
    Finished(CommittedClassifier),
}

/// Looks ahead for the next page of an independent object type, trying the independents
/// in turn on successive pages, then fills in the pages it skipped.
pub struct DeferralClassifier {
    pub base: CommittedClassifier,
    /// The look-ahead cursor.
    pub page_lock: PageLock,
    /// The first page deferral skipped.
    pub start_page: Page,
    /// The independent page that ended deferral, once found.
    pub end_page: Option<Page>,
    /// The independent object type the next look-ahead page is tried as.
    pub current_independent: KnownObject,
    /// The independent object types still to try before starting over.
    pub independents: Vec<KnownObject>,
}

/// The decisions that fill in the pages from `start` on with `classes`, in page order.
pub open spec fn spec_fill_decisions(start: Page, classes: Seq<KnownObject>) -> Seq<
    (Page, KnownObject),
> {
    Seq::new(classes.len(), |k: int| (Page((start.0 + k) as u32), classes[k]))
}

/// `cs` is the run of contexts that deciding the pages `start..start + cs.len() - 1` one after
/// the other by inference among `deps` goes through.
pub open spec fn spec_inference_chain(
    cs: Seq<Context>,
    start: Page,
    deps: Seq<KnownObject>,
    classes: Seq<KnownObject>,
) -> bool {
    &&& cs.len() == classes.len() + 1
    &&& forall|i: int| 0 <= i < classes.len() ==> #[trigger] spec_chain_link(cs, start, deps, classes[i], i)
}

/// Skipped page `k` (counting from `start`) was inferred as `class` in context `cs[k]`, and
/// deciding it so led to `cs[k + 1]`.
pub open spec fn spec_chain_link(
    cs: Seq<Context>,
    start: Page,
    deps: Seq<KnownObject>,
    class: KnownObject,
    k: int,
) -> bool {
    let page = Page((start.0 + k) as u32);
    &&& class == spec_infer(&cs[k], page, deps)
    &&& spec_decided(&cs[k], &cs[k + 1], page, class)
}

impl DeferralClassifier {
    /// The page being looked ahead at.
    pub open spec fn spec_current_page(&self) -> Page {
        self.page_lock.page()
    }

    /// Deferral is well formed: the base classifier holds its cursor locked on the first
    /// skipped page, past the first page of the range and before its end, with the pages
    /// before it decided; the look-ahead cursor is unlocked and has not gone back.
    pub open spec fn wf(&self) -> bool {
        &&& self.base.wf()
        &&& self.base.page_lock == PageLock::Locked(self.start_page)
        &&& self.base.ctx.start_page.0 < self.start_page.0
        &&& self.start_page.0 < self.base.ctx.end_page.0
        &&& !self.page_lock.is_locked()
        &&& self.start_page.0 <= self.spec_current_page().0
    }

    /// Takes over from `base` on its current page: `base`'s cursor is locked there while a
    /// look-ahead cursor starts from it, trying the last independent first.
    pub fn new(base: CommittedClassifier) -> (r: Self)
        ensures
            (base.wf() && base.ctx.start_page.0 < base.spec_current_page().0
                < base.ctx.end_page.0) ==> r.wf(),
            r.base.page_lock == PageLock::Locked(base.spec_current_page()),
            r.start_page == base.spec_current_page(),
            r.page_lock == PageLock::Unlocked(base.spec_current_page()),
            r.end_page is None,
            r.current_independent == spec_global_independents().last(),
            r.independents@ == spec_global_independents().drop_last(),
            r.base.ctx == base.ctx,
            r.base.jobs == base.jobs,
            r.base.streams == base.streams,
            r.base.should_defer == base.should_defer,
            r.base.overrides == base.overrides,
            r.base.inferencer == base.inferencer,
    {
        let mut base = base;
        let mut independents = get_global_independents();
        base.page_lock = base.page_lock.lock();
        let start_page = base.current_page();
        let page_lock = base.page_lock.unlock();
        let current_independent = independents.pop().unwrap();
        DeferralClassifier {
            start_page,
            page_lock,
            base,
            current_independent,
            independents,
            end_page: None,
        }
    }

    /// The page being looked ahead at.
    pub fn current_page(&self) -> (r: Page)
        ensures
            r == self.spec_current_page(),
    {
        *self.page_lock.get()
    }

    /// Whether the look-ahead cursor has run out of pages.
    pub fn exhausted(&self) -> (r: bool)
        ensures
            r == (self.spec_current_page().0 >= self.base.ctx.end_page.0),
    {
        self.current_page().0 >= self.base.ctx.end_page.0
    }

    /// Tries the current independent on the look-ahead page: returns that classification,
    /// moves the cursor on, and picks the next independent, starting over when all were
    /// tried.
    pub fn spawn_worker(&mut self) -> (r: PendingJob)
        requires
            !old(self).page_lock.is_locked(),
            old(self).spec_current_page().0 < u32::MAX,
        ensures
            r == (PendingJob {
                class: old(self).current_independent,
                page: old(self).spec_current_page(),
                job_type: JobType::Classification,
            }),
            final(self).page_lock == PageLock::Unlocked(
                Page((old(self).spec_current_page().0 + 1) as u32),
            ),
            old(self).independents@.len() == 0 ==> {
                &&& final(self).current_independent == spec_global_independents().last()
                &&& final(self).independents@ == spec_global_independents().drop_last()
            },
            old(self).independents@.len() > 0 ==> {
                &&& final(self).current_independent == old(self).independents@.last()
                &&& final(self).independents@ == old(self).independents@.drop_last()
            },
            final(self).base == old(self).base,
            final(self).start_page == old(self).start_page,
            final(self).end_page == old(self).end_page,
            old(self).wf() ==> final(self).wf(),
    {
        let job = PendingJob::classify(self.current_independent, self.current_page());
        self.page_lock.increment();
        if self.independents.len() == 0 {
            self.independents = get_global_independents();
        }
        self.current_independent = self.independents.pop().unwrap();
        job
    }

    /// `after` is `self` with `on_page` recorded as known not to be `as_class`, and nothing
    /// else changed.
    pub open spec fn spec_failure_recorded(
        &self,
        after: &Self,
        on_page: Page,
        as_class: KnownObject,
    ) -> bool {
        &&& after.base.ctx.guarantee_failures.view() == self.base.ctx.guarantee_failures.view().insert(
            on_page.0,
            self.base.ctx.guarantee_failures.records_of(on_page.0).push(as_class),
        )
        &&& after.base.ctx.pages == self.base.ctx.pages
        &&& after.base.ctx.start_page == self.base.ctx.start_page
        &&& after.base.ctx.end_page == self.base.ctx.end_page
        &&& after.base.ctx.current_parent == self.base.ctx.current_parent
        &&& after.base.ctx.prev_parents.view() == self.base.ctx.prev_parents.view()
        &&& after.base.page_lock == self.base.page_lock
        &&& after.base.jobs == self.base.jobs
        &&& after.base.should_defer == self.base.should_defer
        &&& after.base.overrides == self.base.overrides
        &&& after.base.streams == self.base.streams
        &&& after.page_lock == self.page_lock
        &&& after.start_page == self.start_page
        &&& after.end_page == self.end_page
        &&& after.current_independent == self.current_independent
        &&& after.independents == self.independents
    }

    /// Records that `on_page` is not `as_class`.
    pub fn handle_failed(&mut self, on_page: Page, as_class: KnownObject)
        ensures
            old(self).spec_failure_recorded(final(self), on_page, as_class),
            old(self).wf() ==> final(self).wf(),
    {
        self.base.ctx.guarantee_failure_of(as_class, on_page);
    }

    /// Settles a look-ahead classification of `on_page` as the independent `as_class`: when
    /// the page classified, deferral ends there and the committed classifier it finalized
    /// takes over; otherwise the page is recorded as not being `as_class` and the search
    /// goes on.
    pub fn settle(self, on_page: Page, as_class: KnownObject, classified: bool) -> (r: Result<
        DeferralStep,
        ClassificationError,
    >)
        requires
            classified ==> self.wf() && self.start_page.0 <= on_page.0 < self.base.ctx.end_page.0,
        ensures
            classified ==> (r matches Ok(DeferralStep::Finished(c)) && self.spec_finalized(
                on_page,
                as_class,
                &c,
            )),
            !classified ==> (r matches Ok(DeferralStep::Searching(d))
                && self.spec_failure_recorded(&d, on_page, as_class) && (self.wf() ==> d.wf())),
    {
        if classified {
            match self.finalize(on_page, as_class) {
                Ok(c) => Ok(DeferralStep::Finished(c)),
                Err(e) => Err(e),
            }
        } else {
            let mut this = self;
            this.handle_failed(on_page, as_class);
            Ok(DeferralStep::Searching(this))
        }
    }

    /// The page that ended deferral.
    fn get_end_page(&self) -> (r: Page)
        requires
            self.end_page is Some,
        ensures
            r == self.end_page.unwrap(),
    {
        match self.end_page {
            Some(s) => s,
            None => Page(0),
        }
    }

    /// The skipped pages: from the first skipped page up to the page that ended deferral.
    fn fill_range(&self) -> (r: Vec<Page>)
        requires
            self.end_page is Some,
            self.start_page.0 <= self.end_page.unwrap().0,
        ensures
            r@.len() == self.end_page.unwrap().0 - self.start_page.0,
            forall|i: int| 0 <= i < r@.len() ==> #[trigger] r@[i] == Page((self.start_page.0 + i) as u32),
    {
        let end = self.get_end_page();
        let mut out: Vec<Page> = Vec::new();
        let mut num = self.start_page.0;
        while num < end.0
            invariant
                self.start_page.0 <= num <= end.0,
                end == self.end_page.unwrap(),
                out@.len() == num - self.start_page.0,
                forall|i: int| 0 <= i < out@.len() ==> #[trigger] out@[i] == Page((self.start_page.0 + i) as u32),
            decreases end.0 - num,
        {
            out.push(Page(num));
            num = num + 1;
        }
        out
    }

    /// Filling in is possible: the base classifier holds its cursor locked, every page before
    /// the skipped ones is decided, and the skipped pages lie inside the range.
    pub open spec fn spec_fill_ready(&self) -> bool {
        &&& self.end_page is Some
        &&& self.base.page_lock.is_locked()
        &&& self.base.ctx.start_page.0 < self.start_page.0
        &&& self.start_page.0 <= self.end_page.unwrap().0 < self.base.ctx.end_page.0
        &&& forall|p: u32|
            self.base.ctx.start_page.0 <= p < self.start_page.0
                ==> #[trigger] self.base.ctx.pages@.contains_key(p)
    }

    /// After filling in, skipped page `k` is decided, and the `k`-th new piece of work
    /// classifies it as it was decided.
    pub open spec fn spec_filled_page(&self, after: &Self, k: int) -> bool {
        let page = Page((self.start_page.0 + k) as u32);
        &&& after.base.ctx.pages@.contains_key(page.0)
        &&& after.base.jobs@[self.base.jobs@.len() + k] == PendingJob {
            class: after.base.ctx.pages@[page.0],
            page,
            job_type: JobType::Classification,
        }
    }

    /// Page `p` reads the same before and after.
    pub open spec fn spec_kept_page(&self, after: &Self, p: u32) -> bool {
        &&& after.base.ctx.pages@.contains_key(p) == self.base.ctx.pages@.contains_key(p)
        &&& self.base.ctx.pages@.contains_key(p) ==> after.base.ctx.pages@[p]
            == self.base.ctx.pages@[p]
    }

    /// What stays put while filling in.
    pub open spec fn spec_fill_frame(&self, after: &Self) -> bool {
        &&& after.base.ctx.start_page == self.base.ctx.start_page
        &&& after.base.ctx.end_page == self.base.ctx.end_page
        &&& after.base.ctx.guarantee_failures.view() == self.base.ctx.guarantee_failures.view()
        &&& after.base.page_lock == self.base.page_lock
        &&& after.base.should_defer == self.base.should_defer
        &&& after.base.streams == self.base.streams
        &&& after.base.overrides == self.base.overrides
        &&& after.start_page == self.start_page
        &&& after.end_page == self.end_page
        &&& after.page_lock == self.page_lock
    }

    /// The effect of filling in the first `n` skipped pages: each is decided and sent to be
    /// classified as it was decided, in page order, and nothing else moves.
    pub open spec fn spec_filled_upto(&self, after: &Self, n: int) -> bool {
        &&& after.base.jobs@.len() == self.base.jobs@.len() + n
        &&& after.base.jobs@.subrange(0, self.base.jobs@.len() as int) == self.base.jobs@
        &&& forall|k: int| 0 <= k < n ==> #[trigger] self.spec_filled_page(after, k)
        &&& forall|p: u32|
            !(self.start_page.0 <= p < self.start_page.0 + n) ==> #[trigger] self.spec_kept_page(
                after,
                p,
            )
        &&& self.spec_fill_frame(after)
    }

    /// The effect every way of filling in shares, over all skipped pages.
    pub open spec fn spec_filled(&self, after: &Self) -> bool {
        self.spec_filled_upto(after, self.end_page.unwrap().0 - self.start_page.0)
    }

    /// The class of skipped page `k` when filling in with a pair.
    pub open spec fn spec_pair_class(pair: (KnownObject, KnownObject), k: int) -> KnownObject {
        if k % 2 == 0 {
            pair.0
        } else {
            pair.1
        }
    }

    /// Deciding one more skipped page, as `decide_and_classify_as` does, extends a fill.
    proof fn lemma_fill_one_more(
        start: &Self,
        before: &Self,
        after: &Self,
        i: int,
        class: KnownObject,
    )
        requires
            0 <= i,
            start.start_page.0 + i <= u32::MAX,
            start.spec_filled_upto(before, i),
            after.base.ctx.pages@ == before.base.ctx.pages@.insert(
                (start.start_page.0 + i) as u32,
                class,
            ),
            after.base.jobs@ == before.base.jobs@.push(
                PendingJob {
                    class,
                    page: Page((start.start_page.0 + i) as u32),
                    job_type: JobType::Classification,
                },
            ),
            before.spec_fill_frame(after),
        ensures
            start.spec_filled_upto(after, i + 1),
    {
        let n0 = start.base.jobs@.len();
        let page = Page((start.start_page.0 + i) as u32);
        assert(after.base.jobs@.subrange(0, n0 as int) =~= start.base.jobs@) by {
            assert forall|t: int| 0 <= t < n0 implies after.base.jobs@[t] == start.base.jobs@[t] by {
                assert(before.base.jobs@.subrange(0, n0 as int)[t] == start.base.jobs@[t]);
            }
        }
        assert forall|k: int| 0 <= k < i + 1 implies #[trigger] start.spec_filled_page(after, k) by {
            if k < i {
                assert(start.spec_filled_page(before, k));
                assert(after.base.jobs@[n0 + k] == before.base.jobs@[n0 + k]);
            }
        }
        assert forall|p: u32| !(start.start_page.0 <= p < start.start_page.0 + i + 1) implies
            #[trigger] start.spec_kept_page(after, p) by {
            assert(start.spec_kept_page(before, p));
        }
    }

    /// Fills in the skipped pages with the two classes of a pair, alternately.
    fn fill_in_with_only_pair(&mut self, pair: (KnownObject, KnownObject))
        requires
            old(self).spec_fill_ready(),
        ensures
            old(self).spec_filled(final(self)),
            final(self).spec_fill_ready(),
            forall|k: int|
                0 <= k < old(self).end_page.unwrap().0 - old(self).start_page.0 ==> #[trigger]
                final(self).base.ctx.pages@[(old(self).start_page.0 + k) as u32]
                    == Self::spec_pair_class(pair, k),
            old(self).spec_fill_decided(final(self)),
    {
        let range = self.fill_range();
        let ghost mut cs: Seq<Context> = seq![self.base.ctx];
        let mut i: usize = 0;
        assert(self.base.jobs@.subrange(0, self.base.jobs@.len() as int) =~= self.base.jobs@);
        while i < range.len()
            invariant
                old(self).spec_fill_ready(),
                range@.len() == old(self).end_page.unwrap().0 - old(self).start_page.0,
                forall|k: int|
                    0 <= k < range@.len() ==> #[trigger] range@[k] == Page(
                        (old(self).start_page.0 + k) as u32,
                    ),
                i <= range@.len(),
                self.spec_fill_ready(),
                old(self).spec_filled_upto(self, i as int),
                forall|k: int|
                    0 <= k < i ==> #[trigger] self.base.ctx.pages@[(old(self).start_page.0
                        + k) as u32] == Self::spec_pair_class(pair, k),
                cs.len() == i + 1,
                cs[0] == old(self).base.ctx,
                cs.last() == self.base.ctx,
                forall|k: int|
                    0 <= k < i ==> #[trigger] spec_decided(
                        &cs[k],
                        &cs[k + 1],
                        Page((old(self).start_page.0 + k) as u32),
                        Self::spec_pair_class(pair, k),
                    ),
            decreases range@.len() - i,
        {
            let page = range[i];
            let class = if i % 2 == 0 { pair.0 } else { pair.1 };
            let ghost before = *self;
            let _ = self.base.decide_and_classify_as(class, page);
            proof {
                let old_cs = cs;
                cs = cs.push(self.base.ctx);
                assert forall|k: int| 0 <= k < i + 1 implies #[trigger] spec_decided(
                    &cs[k],
                    &cs[k + 1],
                    Page((old(self).start_page.0 + k) as u32),
                    Self::spec_pair_class(pair, k),
                ) by {
                    if k < i {
                        assert(spec_decided(
                            &old_cs[k],
                            &old_cs[k + 1],
                            Page((old(self).start_page.0 + k) as u32),
                            Self::spec_pair_class(pair, k),
                        ));
                        assert(cs[k] == old_cs[k]);
                        assert(cs[k + 1] == old_cs[k + 1]);
                    } else {
                        assert(cs[k] == before.base.ctx);
                    }
                }
                Self::lemma_fill_one_more(old(self), &before, self, i as int, class);
                assert forall|k: int| 0 <= k < i + 1 implies #[trigger] self.base.ctx.pages@[(
                old(self).start_page.0 + k) as u32] == Self::spec_pair_class(pair, k) by {
                    if k < i {
                        assert(before.base.ctx.pages@[(old(self).start_page.0 + k) as u32]
                            == Self::spec_pair_class(pair, k));
                    }
                }
            }
            i = i + 1;
        }
        proof {
            let classes = old(self).spec_filled_classes(self);
            let ds = spec_fill_decisions(old(self).start_page, classes);
            assert forall|k: int| 0 <= k < ds.len() implies #[trigger] spec_decided(
                &cs[k],
                &cs[k + 1],
                ds[k].0,
                ds[k].1,
            ) by {
                assert(classes[k] == self.base.ctx.pages@[(old(self).start_page.0 + k) as u32]);
                assert(spec_decided(
                    &cs[k],
                    &cs[k + 1],
                    Page((old(self).start_page.0 + k) as u32),
                    Self::spec_pair_class(pair, k),
                ));
            }
            assert(spec_decision_run(cs, ds));
        }
    }

    /// Fills in the skipped pages with one class.
    fn fill_in_with_sole_class(&mut self, class: KnownObject)
        requires
            old(self).spec_fill_ready(),
        ensures
            old(self).spec_filled(final(self)),
            final(self).spec_fill_ready(),
            forall|k: int|
                0 <= k < old(self).end_page.unwrap().0 - old(self).start_page.0 ==> #[trigger]
                final(self).base.ctx.pages@[(old(self).start_page.0 + k) as u32] == class,
            old(self).spec_fill_decided(final(self)),
    {
        self.fill_in_with_only_pair((class, class));
        assert forall|k: int|
            0 <= k < old(self).end_page.unwrap().0 - old(self).start_page.0 implies #[trigger]
            self.base.ctx.pages@[(old(self).start_page.0 + k) as u32] == class by {
            assert(self.base.ctx.pages@[(old(self).start_page.0 + k) as u32]
                == Self::spec_pair_class((class, class), k));
        }
    }

    /// The classes filled in, skipped page by skipped page.
    pub open spec fn spec_filled_classes(&self, after: &Self) -> Seq<KnownObject> {
        Seq::new(
            (self.end_page.unwrap().0 - self.start_page.0) as nat,
            |k: int| after.base.ctx.pages@[(self.start_page.0 + k) as u32],
        )
    }

    /// Filling in went from `self`'s context to `after`'s through one decision per skipped
    /// page, in page order, each deciding the page as the class it holds in `after`.
    pub open spec fn spec_fill_decided(&self, after: &Self) -> bool {
        exists|cs: Seq<Context>|
            #![trigger spec_decision_run(cs, spec_fill_decisions(self.start_page, self.spec_filled_classes(after)))]
            cs[0] == self.base.ctx && cs.last() == after.base.ctx && spec_decision_run(
                cs,
                spec_fill_decisions(self.start_page, self.spec_filled_classes(after)),
            )
    }

    /// Fills in the skipped pages one after the other by inference among the dependents of
    /// `finalized_as`, each inference seeing the pages filled in before it.
    fn fill_in_by_standard_classification(&mut self, finalized_as: KnownObject) -> (r: Result<
        (),
        ClassificationError,
    >)
        requires
            old(self).spec_fill_ready(),
        ensures
            r is Ok,
            old(self).spec_filled(final(self)),
            final(self).spec_fill_ready(),
            exists|cs: Seq<Context>|
                #![trigger spec_inference_chain(cs, old(self).start_page, spec_dependents(finalized_as), old(self).spec_filled_classes(final(self)))]
                cs[0] == old(self).base.ctx && cs.last() == final(self).base.ctx
                    && spec_inference_chain(
                    cs,
                    old(self).start_page,
                    spec_dependents(finalized_as),
                    old(self).spec_filled_classes(final(self)),
                ),
            old(self).spec_fill_decided(final(self)),
    {
        let dependents = KnownObjectList::from_vec(get_all_dependents(finalized_as));
        let range = self.fill_range();
        let ghost deps = spec_dependents(finalized_as);
        let ghost mut cs: Seq<Context> = seq![self.base.ctx];
        let mut i: usize = 0;
        assert(self.base.jobs@.subrange(0, self.base.jobs@.len() as int) =~= self.base.jobs@);
        while i < range.len()
            invariant
                old(self).spec_fill_ready(),
                dependents.0@ == deps,
                deps == spec_dependents(finalized_as),
                range@.len() == old(self).end_page.unwrap().0 - old(self).start_page.0,
                forall|k: int|
                    0 <= k < range@.len() ==> #[trigger] range@[k] == Page(
                        (old(self).start_page.0 + k) as u32,
                    ),
                i <= range@.len(),
                self.spec_fill_ready(),
                old(self).spec_filled_upto(self, i as int),
                cs.len() == i + 1,
                cs[0] == old(self).base.ctx,
                cs.last() == self.base.ctx,
                forall|k: int|
                    0 <= k < i ==> #[trigger] spec_chain_link(
                        cs,
                        old(self).start_page,
                        deps,
                        self.base.ctx.pages@[(old(self).start_page.0 + k) as u32],
                        k,
                    ),
            decreases range@.len() - i,
        {
            let page = range[i];
            proof {
                if page.0 - 1 >= old(self).start_page.0 {
                    assert(old(self).spec_filled_page(self, i - 1));
                }
                assert(self.base.ctx.pages@.contains_key((page.0 - 1) as u32));
                lemma_look_back_defines_infer(&self.base.ctx, page, deps);
            }
            let ghost before = *self;
            let inferenced = match self.base.inferencer.infer(&mut self.base.ctx, page, &dependents) {
                Ok(c) => c,
                Err(e) => {
                    return Err(ClassificationError::InferenceError(e));
                },
            };
            let ghost mid = *self;
            match self.base.decide_and_classify_as(inferenced, page) {
                Ok(()) => {},
                Err(e) => {
                    return Err(e);
                },
            }
            proof {
                Self::lemma_fill_one_more(old(self), &before, self, i as int, inferenced);
                let old_cs = cs;
                cs = cs.push(self.base.ctx);
                assert forall|k: int| 0 <= k < i + 1 implies #[trigger] spec_chain_link(
                    cs,
                    old(self).start_page,
                    deps,
                    self.base.ctx.pages@[(old(self).start_page.0 + k) as u32],
                    k,
                ) by {
                    let pg = Page((old(self).start_page.0 + k) as u32);
                    if k < i {
                        assert(spec_chain_link(old_cs, old(self).start_page, deps, before.base.ctx.pages@[pg.0], k));
                        assert(pg.0 != page.0);
                        assert(cs[k] == old_cs[k]);
                        assert(cs[k + 1] == old_cs[k + 1]);
                    } else {
                        assert(cs[k] == before.base.ctx);
                        assert(mid.base.ctx == before.base.ctx);
                    }
                }
            }
            i = i + 1;
        }
        proof {
            let classes = old(self).spec_filled_classes(self);
            let ds = spec_fill_decisions(old(self).start_page, classes);
            assert forall|k: int| 0 <= k < ds.len() implies #[trigger] spec_decided(
                &cs[k],
                &cs[k + 1],
                ds[k].0,
                ds[k].1,
            ) by {
                assert(classes[k] == self.base.ctx.pages@[(old(self).start_page.0 + k) as u32]);
                assert(spec_chain_link(
                    cs,
                    old(self).start_page,
                    deps,
                    self.base.ctx.pages@[(old(self).start_page.0 + k) as u32],
                    k,
                ));
            }
            assert(spec_decision_run(cs, ds));
            assert(spec_inference_chain(cs, old(self).start_page, deps, classes)) by {
                assert forall|k: int| 0 <= k < classes.len() implies #[trigger] spec_chain_link(
                    cs,
                    old(self).start_page,
                    deps,
                    classes[k],
                    k,
                ) by {
                    assert(classes[k] == self.base.ctx.pages@[(old(self).start_page.0 + k) as u32]);
                }
            }
        }
        Ok(())
    }

    /// How the skipped pages were filled in, by the dependents of `finalized_as`: a lone pair
    /// alternates its two classes, a sole dependent fills every page, and otherwise each page
    /// is inferred among the dependents in turn.
    pub open spec fn spec_filled_by(&self, after: &Self, finalized_as: KnownObject) -> bool {
        let d = spec_dependents(finalized_as);
        let n = self.end_page.unwrap().0 - self.start_page.0;
        if d.len() == 2 && d[0].spec_is_first_in_pair() && d[1].spec_is_second_in_pair() {
            forall|k: int|
                0 <= k < n ==> #[trigger] after.base.ctx.pages@[(self.start_page.0 + k) as u32]
                    == Self::spec_pair_class((d[0], d[1]), k)
        } else if d.len() == 1 {
            forall|k: int|
                0 <= k < n ==> #[trigger] after.base.ctx.pages@[(self.start_page.0 + k) as u32]
                    == d[0]
        } else {
            exists|cs: Seq<Context>|
                #![trigger spec_inference_chain(cs, self.start_page, d, self.spec_filled_classes(after))]
                cs[0] == self.base.ctx && cs.last() == after.base.ctx && spec_inference_chain(
                    cs,
                    self.start_page,
                    d,
                    self.spec_filled_classes(after),
                )
        }
    }

    /// Fills in the skipped pages from the dependents of the independent that ended
    /// deferral.
    fn fill_in_dependents(&mut self, finalized_as: KnownObject) -> (r: Result<(), ClassificationError>)
        requires
            old(self).spec_fill_ready(),
        ensures
            r is Ok,
            old(self).spec_filled(final(self)),
            final(self).spec_fill_ready(),
            old(self).spec_filled_by(final(self), finalized_as),
            old(self).spec_fill_decided(final(self)),
    {
        let dependents = get_all_dependents(finalized_as);
        if dependents.len() == 2 && dependents[0].is_first_in_pair()
            && dependents[1].is_second_in_pair() {
            self.fill_in_with_only_pair((dependents[0], dependents[1]));
            return Ok(());
        }
        if dependents.len() == 1 {
            self.fill_in_with_sole_class(dependents[0]);
            return Ok(());
        }
        self.fill_in_by_standard_classification(finalized_as)
    }

    /// What finalizing deferral on `on_page` as `as_class` hands back: a committed
    /// classifier past `on_page`, with `on_page` decided as `as_class` and the skipped pages
    /// filled in and sent to be classified as they were decided.
    pub open spec fn spec_finalized(
        &self,
        on_page: Page,
        as_class: KnownObject,
        c: &CommittedClassifier,
    ) -> bool {
        let n = on_page.0 - self.start_page.0;
        let n0 = self.base.jobs@.len();
        &&& c.wf()
        &&& c.page_lock == PageLock::Unlocked(Page((on_page.0 + 1) as u32))
        &&& !c.should_defer
        &&& c.streams == self.base.streams
        &&& c.overrides == self.base.overrides
        &&& c.inferencer == self.base.inferencer
        &&& c.ctx.start_page == self.base.ctx.start_page
        &&& c.ctx.end_page == self.base.ctx.end_page
        &&& c.ctx.guarantee_failures.view() == self.base.ctx.guarantee_failures.view()
        &&& c.ctx.pages@.contains_key(on_page.0)
        &&& c.ctx.pages@[on_page.0] == as_class
        &&& self.spec_filled_from(on_page, as_class, c)
        &&& c.jobs@.len() == n0 + n
        &&& c.jobs@.subrange(0, n0 as int) == self.base.jobs@
        &&& forall|k: int|
            0 <= k < n ==> #[trigger] Self::spec_fill_job_at(c, self.start_page, n0 as int, k)
        &&& forall|p: u32|
            (p < self.start_page.0 || p > on_page.0) ==> #[trigger] Self::spec_page_kept(
                &self.base,
                c,
                p,
            )
    }

    /// How finalizing on `on_page` as `as_class` filled in the skipped pages of `c`: from the
    /// context in which `on_page` was decided, one decision per skipped page, in page order,
    /// led to `c`'s context (so the current parent and the parent history follow those
    /// decisions); and by the dependents of `as_class`, a lone pair alternates its two
    /// classes, a sole dependent fills every page, and otherwise each page is inferred among
    /// the dependents in turn.
    pub open spec fn spec_filled_from(
        &self,
        on_page: Page,
        as_class: KnownObject,
        c: &CommittedClassifier,
    ) -> bool {
        let d = spec_dependents(as_class);
        let n = on_page.0 - self.start_page.0;
        let classes = Seq::new(
            n as nat,
            |k: int| c.ctx.pages@[(self.start_page.0 + k) as u32],
        );
        &&& exists|cs: Seq<Context>|
            #![trigger spec_decision_run(cs, spec_fill_decisions(self.start_page, classes))]
            cs.len() > 0 && spec_decided(&self.base.ctx, &cs[0], on_page, as_class) && cs.last()
                == c.ctx && spec_decision_run(cs, spec_fill_decisions(self.start_page, classes))
        &&& if d.len() == 2 && d[0].spec_is_first_in_pair() && d[1].spec_is_second_in_pair() {
            forall|k: int| 0 <= k < n ==> #[trigger] classes[k] == Self::spec_pair_class((d[0], d[1]), k)
        } else if d.len() == 1 {
            forall|k: int| 0 <= k < n ==> #[trigger] classes[k] == d[0]
        } else {
            exists|cs: Seq<Context>|
                #![trigger spec_inference_chain(cs, self.start_page, d, classes)]
                cs.len() > 0 && spec_decided(&self.base.ctx, &cs[0], on_page, as_class)
                    && cs.last() == c.ctx && spec_inference_chain(cs, self.start_page, d, classes)
        }
    }

    /// Skipped page `k` is decided in `c`, and `c`'s work at `n0 + k` classifies it as it was
    /// decided.
    pub open spec fn spec_fill_job_at(c: &CommittedClassifier, start: Page, n0: int, k: int) -> bool {
        let page = Page((start.0 + k) as u32);
        &&& c.ctx.pages@.contains_key(page.0)
        &&& c.jobs@[n0 + k] == PendingJob {
            class: c.ctx.pages@[page.0],
            page,
            job_type: JobType::Classification,
        }
    }

    /// Page `p` reads the same in `a` and `b`.
    pub open spec fn spec_page_kept(a: &CommittedClassifier, b: &CommittedClassifier, p: u32) -> bool {
        &&& b.ctx.pages@.contains_key(p) == a.ctx.pages@.contains_key(p)
        &&& a.ctx.pages@.contains_key(p) ==> b.ctx.pages@[p] == a.ctx.pages@[p]
    }

    /// Ends deferral on the independent page `on_page`, found to be `as_class`: decides it,
    /// fills in the skipped pages from `as_class`'s dependents, and hands the committed
    /// classifier back, released just past `on_page`.
    pub fn finalize(self, on_page: Page, as_class: KnownObject) -> (r: Result<
        CommittedClassifier,
        ClassificationError,
    >)
        requires
            self.wf(),
            self.start_page.0 <= on_page.0,
            on_page.0 < self.base.ctx.end_page.0,
        ensures
            r matches Ok(c) && self.spec_finalized(on_page, as_class, &c),
    {
        let ghost orig = self;
        let mut this = self;
        this.end_page = Some(on_page);
        match this.base.decide_as(as_class, ContextUpdateHistory::new(), on_page) {
            Ok(()) => {},
            Err(e) => {
                return Err(e);
            },
        }
        let ghost decided = this;
        match this.fill_in_dependents(as_class) {
            Ok(()) => {},
            Err(e) => {
                return Err(e);
            },
        }
        let ghost filled = this;
        this.base.should_defer = false;
        this.base.page_lock = PageLock::Unlocked(on_page);
        this.base.page_lock.increment();
        proof {
            let n = on_page.0 - orig.start_page.0;
            let n0 = orig.base.jobs@.len();
            assert forall|k: int| 0 <= k < n implies #[trigger] Self::spec_fill_job_at(
                &this.base,
                orig.start_page,
                n0 as int,
                k,
            ) by {
                assert(decided.spec_filled_page(&filled, k));
            }
            assert forall|p: u32| (p < orig.start_page.0 || p > on_page.0) implies
                #[trigger] Self::spec_page_kept(&orig.base, &this.base, p) by {
                assert(decided.spec_kept_page(&filled, p));
            }
            assert(decided.spec_kept_page(&filled, on_page.0));
            let d = spec_dependents(as_class);
            let classes = Seq::new(
                n as nat,
                |k: int| this.base.ctx.pages@[(orig.start_page.0 + k) as u32],
            );
            assert(classes =~= decided.spec_filled_classes(&filled));
            let ds = spec_fill_decisions(orig.start_page, classes);
            let rs = choose|cs: Seq<Context>|
                #![trigger spec_decision_run(cs, spec_fill_decisions(decided.start_page, decided.spec_filled_classes(&filled)))]
                cs[0] == decided.base.ctx && cs.last() == filled.base.ctx && spec_decision_run(
                    cs,
                    spec_fill_decisions(decided.start_page, decided.spec_filled_classes(&filled)),
                );
            assert(spec_decision_run(rs, ds));
            assert(rs.len() > 0);
            assert(spec_decided(&orig.base.ctx, &rs[0], on_page, as_class));
            if !(d.len() == 2 && d[0].spec_is_first_in_pair() && d[1].spec_is_second_in_pair())
                && d.len() != 1 {
                let cs = choose|cs: Seq<Context>|
                    #![trigger spec_inference_chain(cs, decided.start_page, d, decided.spec_filled_classes(&filled))]
                    cs[0] == decided.base.ctx && cs.last() == filled.base.ctx
                        && spec_inference_chain(
                        cs,
                        decided.start_page,
                        d,
                        decided.spec_filled_classes(&filled),
                    );
                assert(spec_inference_chain(cs, orig.start_page, d, classes));
            } else {
                assert forall|k: int| 0 <= k < n implies #[trigger] classes[k] == filled.base.ctx.pages@[(decided.start_page.0 + k) as u32] by {}
            }
            assert forall|p: u32|
                this.base.ctx.start_page.0 <= p < on_page.0 + 1 implies #[trigger] this.base.ctx.pages@.contains_key(p) by {
                if p < orig.start_page.0 {
                    assert(decided.spec_kept_page(&filled, p));
                } else if p < on_page.0 {
                    assert(decided.spec_filled_page(&filled, p - orig.start_page.0));
                }
            }
        }
        Ok(this.base)
    }
}

} // verus!
