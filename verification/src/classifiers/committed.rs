use vstd::prelude::*;
use crate::classifiers::{Classifier, ClassificationError, STEP_COUNT};
use crate::classifiers::ovstr::StreamPtr;
use crate::constraints::overrides::{
    MultiPageHierarchyBreak, OverrideAction, OverrideConstraints, OverrideStream,
};
use crate::context::{Context, ContextUpdateHistory, spec_decided};
use crate::inferencer::{Inferencer, spec_infer, spec_infer_defined, lemma_first_page_is_root};
use crate::obj_list::{
    KnownObjectList, spec_after_hard, spec_all_objects, spec_without_failed,
    lemma_without_failed_members,
};
use crate::page::Page;
use crate::page_lock::PageLock;
use crate::schema::{KnownObject, overrides, override_streams, spec_root, spec_class_name};
use crate::stream::{append_bytes, encode_frame, spec_frame};
use crate::threading::{JobType, PendingJob};
use vstd::utf8::encode_utf8;

verus! {

/// Whether the first page of `ctx` can be inferred among every object type: the root is a
/// candidate there, or no candidate is left at all.
pub open spec fn spec_first_page_ready(ctx: &Context) -> bool {
    let l = spec_without_failed(ctx, ctx.start_page, spec_all_objects());
    l.len() == 0 || l.contains(spec_root())
}

/// The first override that acts on `class` at `page`, trying `overrides` in order.
pub open spec fn spec_override_action(
    ctx: &Context,
    overrides: Seq<OverrideConstraints>,
    class: KnownObject,
    page: Page,
) -> Option<OverrideAction>
    decreases overrides.len(),
{
    if overrides.len() == 0 {
        None
    } else {
        match spec_override_action(ctx, overrides.drop_last(), class, page) {
            Some(a) => Some(a),
            None => overrides.last().spec_action(ctx, class, page),
        }
    }
}

/// The class a page is decided as when an override acts on it.
pub open spec fn spec_action_class(action: OverrideAction) -> KnownObject {
    match action {
        OverrideAction::Skip => KnownObject::UNKNOWN,
        OverrideAction::InferAs(c) => c,
        OverrideAction::ClassifyAs(c) => c,
    }
}

/// The work an override sends to the workers for `page`.
pub open spec fn spec_action_jobs(action: OverrideAction, page: Page) -> Seq<PendingJob> {
    match action {
        OverrideAction::Skip => Seq::empty(),
        OverrideAction::InferAs(c) => seq![
            PendingJob { class: c, page, job_type: JobType::Classification },
        ],
        OverrideAction::ClassifyAs(c) => seq![
            PendingJob { class: c, page, job_type: JobType::Extraction },
        ],
    }
}

/// What the committed classifier does next.
#[derive(Debug, Clone, Copy, PartialEq, Eq, Structural)]
pub enum CommittedMove {
    /// The page range is done.
    Finish,
    /// Classify the current page.
    Step,
    /// Hand over to the deferral classifier.
    Defer,
    /// Hand over to the override stream.
    EnterStream(StreamPtr),
}

/// Classifies pages one after the other, committing to each inference.
pub struct CommittedClassifier {
    pub inferencer: Inferencer,
    /// Set once a classification failed: the next move hands over to deferral.
    pub should_defer: bool,
    pub ctx: Context,
    pub page_lock: PageLock,
    pub overrides: Vec<OverrideConstraints>,
    pub streams: Vec<MultiPageHierarchyBreak>,
    /// Work waiting to be handed to the worker threads, oldest first.
    pub jobs: Vec<PendingJob>,
}

impl CommittedClassifier {
    /// The page being classified.
    pub open spec fn spec_current_page(&self) -> Page {
        self.page_lock.page()
    }

    /// The classifier is well formed: its cursor lies within the page range, every page
    /// before the cursor is decided, and, while the cursor is on the first page, the first
    /// page can be inferred.
    pub open spec fn wf(&self) -> bool {
        &&& self.ctx.start_page.0 <= self.spec_current_page().0 <= self.ctx.end_page.0
        &&& forall|p: u32|
            self.ctx.start_page.0 <= p < self.spec_current_page().0
                ==> #[trigger] self.ctx.pages@.contains_key(p)
        &&& self.spec_current_page() == self.ctx.start_page ==> spec_first_page_ready(&self.ctx)
    }

    /// The class the current page is decided as by a step, and the work the step sends.
    pub open spec fn spec_step_decision(&self) -> (KnownObject, Seq<PendingJob>) {
        let p = self.spec_current_page();
        let w = spec_infer(&self.ctx, p, spec_all_objects());
        if w == KnownObject::UNKNOWN {
            (KnownObject::UNKNOWN, Seq::empty())
        } else {
            match spec_override_action(&self.ctx, self.overrides@, w, p) {
                Some(a) => (spec_action_class(a), spec_action_jobs(a, p)),
                None => (w, seq![PendingJob { class: w, page: p, job_type: JobType::Classification }]),
            }
        }
    }

    /// A classifier on `start_page` with no work pending, using the schema's overrides and
    /// override streams.
    pub fn new(start_page: Page, inferencer: Inferencer, context: Context) -> (r: Self)
        ensures
            r.page_lock == PageLock::Unlocked(start_page),
            r.ctx == context,
            !r.should_defer,
            r.jobs@.len() == 0,
            r.overrides@.len() == 0,
            r.streams@.len() == 0,
            (start_page == context.start_page && context.start_page.0 <= context.end_page.0
                && spec_first_page_ready(&context))
                ==> r.wf(),
    {
        CommittedClassifier {
            page_lock: PageLock::Unlocked(start_page),
            inferencer,
            ctx: context,
            should_defer: false,
            overrides: overrides(),
            streams: override_streams(),
            jobs: Vec::new(),
        }
    }

    /// The page being classified.
    pub fn current_page(&self) -> (r: Page)
        ensures
            r == self.spec_current_page(),
    {
        *self.page_lock.get()
    }

    /// Classifies the current page and moves on to the next.
    pub fn step(&mut self) -> (r: Result<(), ClassificationError>)
        requires
            old(self).wf(),
            !old(self).page_lock.is_locked() ==> old(self).spec_current_page().0 < u32::MAX,
        ensures
            r is Ok,
            spec_decided(
                &old(self).ctx,
                &final(self).ctx,
                old(self).spec_current_page(),
                old(self).spec_step_decision().0,
            ),
            final(self).jobs@ == old(self).jobs@ + old(self).spec_step_decision().1,
            !old(self).page_lock.is_locked() ==> final(self).page_lock == PageLock::Unlocked(
                Page((old(self).spec_current_page().0 + 1) as u32),
            ),
            old(self).page_lock.is_locked() ==> final(self).page_lock == old(self).page_lock,
            old(self).spec_current_page().0 < old(self).ctx.end_page.0 ==> final(self).wf(),
            final(self).should_defer == old(self).should_defer,
            final(self).overrides == old(self).overrides,
            final(self).streams == old(self).streams,
    {
        self.step_inner()
    }

    /// Whether the inference of the current page is defined in a well formed classifier.
    proof fn lemma_step_defined(&self)
        requires
            self.wf(),
        ensures
            spec_infer_defined(&self.ctx, self.spec_current_page(), spec_all_objects()),
    {
        let p = self.spec_current_page();
        if p == self.ctx.start_page {
            let l = spec_without_failed(&self.ctx, p, spec_all_objects());
            if l.contains(spec_root()) {
                lemma_first_page_is_root(&self.ctx, p, spec_all_objects());
                crate::inferencer::lemma_first_page_definitive(&self.ctx, p, spec_all_objects());
            } else {
                assert(l.len() == 0);
                assert(spec_after_hard(&self.ctx, p, spec_all_objects()) =~= Seq::empty());
                assert(spec_without_failed(
                    &self.ctx,
                    p,
                    spec_after_hard(&self.ctx, p, spec_all_objects()),
                ) =~= Seq::empty()) by {
                    lemma_without_failed_members(
                        &self.ctx,
                        p,
                        spec_after_hard(&self.ctx, p, spec_all_objects()),
                    );
                    if spec_without_failed(
                        &self.ctx,
                        p,
                        spec_after_hard(&self.ctx, p, spec_all_objects()),
                    ).len() > 0 {
                        let x = spec_without_failed(
                            &self.ctx,
                            p,
                            spec_after_hard(&self.ctx, p, spec_all_objects()),
                        )[0];
                        assert(spec_without_failed(
                            &self.ctx,
                            p,
                            spec_after_hard(&self.ctx, p, spec_all_objects()),
                        ).contains(x));
                    }
                }
            }
        } else {
            assert(self.ctx.pages@.contains_key((p.0 - 1) as u32));
            crate::inferencer::lemma_look_back_defines_infer(&self.ctx, p, spec_all_objects());
        }
    }

    /// Infers the current page, lets the overrides act on the winner, sends the work the
    /// decision calls for, decides the page and moves on.
    pub fn step_inner(&mut self) -> (r: Result<(), ClassificationError>)
        requires
            old(self).wf(),
            !old(self).page_lock.is_locked() ==> old(self).spec_current_page().0 < u32::MAX,
        ensures
            r is Ok,
            spec_decided(
                &old(self).ctx,
                &final(self).ctx,
                old(self).spec_current_page(),
                old(self).spec_step_decision().0,
            ),
            final(self).jobs@ == old(self).jobs@ + old(self).spec_step_decision().1,
            !old(self).page_lock.is_locked() ==> final(self).page_lock == PageLock::Unlocked(
                Page((old(self).spec_current_page().0 + 1) as u32),
            ),
            old(self).page_lock.is_locked() ==> final(self).page_lock == old(self).page_lock,
            old(self).spec_current_page().0 < old(self).ctx.end_page.0 ==> final(self).wf(),
            final(self).should_defer == old(self).should_defer,
            final(self).overrides == old(self).overrides,
            final(self).streams == old(self).streams,
    {
        let history = ContextUpdateHistory::new();
        let current_page = self.current_page();
        proof {
            self.lemma_step_defined();
        }
        let all = KnownObjectList::new();
        let winner = match self.inferencer.infer(&mut self.ctx, current_page, &all) {
            Ok(w) => w,
            Err(e) => {
                return Err(ClassificationError::InferenceError(e));
            },
        };
        if winner == KnownObject::UNKNOWN {
            let r = self.decide_as(KnownObject::UNKNOWN, history, current_page);
            assert(self.jobs@ =~= old(self).jobs@ + old(self).spec_step_decision().1);
            return r;
        }
        proof {
            assert forall|i: int| 0 <= i < self.overrides@.len() implies (
            #[trigger] self.overrides@[i]).spec_defined(&self.ctx, winner, current_page) by {
                if current_page != self.ctx.start_page {
                    assert(self.ctx.pages@.contains_key((current_page.0 - 1) as u32));
                }
            }
        }
        match self._override(winner) {
            Some(action) => {
                return self.handle_override(action, history);
            },
            None => {},
        }
        self.jobs.push(PendingJob::classify(winner, current_page));
        self.decide_as(winner, history, current_page)
    }

    /// Decides the current page as the override's action says and sends the work it calls
    /// for, then moves on.
    pub fn handle_override(
        &mut self,
        override_result: OverrideAction,
        history: ContextUpdateHistory,
    ) -> (r: Result<(), ClassificationError>)
        requires
            !old(self).page_lock.is_locked() ==> old(self).spec_current_page().0 < u32::MAX,
        ensures
            r is Ok,
            spec_decided(
                &old(self).ctx,
                &final(self).ctx,
                old(self).spec_current_page(),
                spec_action_class(override_result),
            ),
            final(self).jobs@ == old(self).jobs@ + spec_action_jobs(
                override_result,
                old(self).spec_current_page(),
            ),
            !old(self).page_lock.is_locked() ==> final(self).page_lock == PageLock::Unlocked(
                Page((old(self).spec_current_page().0 + 1) as u32),
            ),
            old(self).page_lock.is_locked() ==> final(self).page_lock == old(self).page_lock,
            (old(self).wf() && old(self).spec_current_page().0 < old(self).ctx.end_page.0)
                ==> final(self).wf(),
            final(self).should_defer == old(self).should_defer,
            final(self).overrides == old(self).overrides,
            final(self).streams == old(self).streams,
    {
        let page = self.current_page();
        match override_result {
            OverrideAction::Skip => {
                let r = self.decide_as(KnownObject::UNKNOWN, history, page);
                assert(self.jobs@ =~= old(self).jobs@ + spec_action_jobs(override_result, page));
                r
            },
            OverrideAction::InferAs(class) => {
                self.jobs.push(PendingJob::classify(class, page));
                self.decide_as(class, history, page)
            },
            OverrideAction::ClassifyAs(class) => {
                self.jobs.push(PendingJob::extract(class, page));
                self.decide_as(class, history, page)
            },
        }
    }

    /// Decides `page` as `class` and, unless the cursor is locked, moves it on by one page.
    pub fn decide_as(
        &mut self,
        class: KnownObject,
        history: ContextUpdateHistory,
        page: Page,
    ) -> (r: Result<(), ClassificationError>)
        requires
            !old(self).page_lock.is_locked() ==> old(self).spec_current_page().0 < u32::MAX,
        ensures
            r is Ok,
            spec_decided(&old(self).ctx, &final(self).ctx, page, class),
            old(self).page_lock.is_locked() ==> final(self).page_lock == old(self).page_lock,
            !old(self).page_lock.is_locked() ==> final(self).page_lock == PageLock::Unlocked(
                Page((old(self).spec_current_page().0 + 1) as u32),
            ),
            final(self).jobs == old(self).jobs,
            final(self).should_defer == old(self).should_defer,
            final(self).overrides == old(self).overrides,
            final(self).streams == old(self).streams,
    {
        let mut history = history;
        match self.ctx.decide(page, class, &mut history) {
            Ok(()) => {},
            Err(e) => {
                return Err(ClassificationError::ContextRecordError(e));
            },
        }
        self.increment_current_page(Page::from_usize(STEP_COUNT));
        Ok(())
    }

    /// Moves the cursor on by `by` pages, unless it is locked.
    fn increment_current_page(&mut self, by: Page)
        requires
            !old(self).page_lock.is_locked() ==> old(self).spec_current_page().0 + by.0
                <= u32::MAX,
        ensures
            old(self).page_lock.is_locked() ==> final(self).page_lock == old(self).page_lock,
            !old(self).page_lock.is_locked() ==> final(self).page_lock == PageLock::Unlocked(
                Page((old(self).spec_current_page().0 + by.0) as u32),
            ),
            final(self).ctx == old(self).ctx,
            final(self).jobs == old(self).jobs,
            final(self).should_defer == old(self).should_defer,
            final(self).overrides == old(self).overrides,
            final(self).streams == old(self).streams,
    {
        let _ = self.page_lock.try_increment_by(by);
    }

    /// Decides `page` as `class` and sends it to be classified.
    pub fn decide_and_classify_as(&mut self, class: KnownObject, page: Page) -> (r: Result<
        (),
        ClassificationError,
    >)
        requires
            !old(self).page_lock.is_locked() ==> old(self).spec_current_page().0 < u32::MAX,
        ensures
            r is Ok,
            spec_decided(&old(self).ctx, &final(self).ctx, page, class),
            old(self).page_lock.is_locked() ==> final(self).page_lock == old(self).page_lock,
            !old(self).page_lock.is_locked() ==> final(self).page_lock == PageLock::Unlocked(
                Page((old(self).spec_current_page().0 + 1) as u32),
            ),
            final(self).jobs@ == old(self).jobs@.push(
                PendingJob { class, page, job_type: JobType::Classification },
            ),
            final(self).should_defer == old(self).should_defer,
            final(self).overrides == old(self).overrides,
            final(self).streams == old(self).streams,
    {
        let r = self.decide_as(class, ContextUpdateHistory::new(), page);
        match r {
            Ok(()) => {},
            Err(e) => {
                return Err(e);
            },
        }
        self.jobs.push(PendingJob::classify(class, page));
        Ok(())
    }

    /// Whether evaluating every override on `winner` at the current page is defined.
    pub open spec fn spec_overrides_defined(&self, winner: KnownObject) -> bool {
        forall|i: int|
            0 <= i < self.overrides@.len() ==> (#[trigger] self.overrides@[i]).spec_defined(
                &self.ctx,
                winner,
                self.spec_current_page(),
            )
    }

    /// The first override that acts on `winner` at the current page.
    pub fn _override(&self, winner: KnownObject) -> (r: Option<OverrideAction>)
        requires
            self.spec_overrides_defined(winner),
        ensures
            r == spec_override_action(&self.ctx, self.overrides@, winner, self.spec_current_page()),
    {
        let page = self.current_page();
        let mut i: usize = 0;
        while i < self.overrides.len()
            invariant
                self.spec_overrides_defined(winner),
                page == self.spec_current_page(),
                i <= self.overrides@.len(),
                spec_override_action(&self.ctx, self.overrides@.take(i as int), winner, page)
                    is None,
            decreases self.overrides@.len() - i,
        {
            let over = self.overrides[i];
            assert(self.overrides@.take((i + 1) as int).drop_last() =~= self.overrides@.take(
                i as int,
            ));
            let action = over.eval(&self.ctx, winner, page);
            if action.is_some() {
                proof {
                    lemma_override_prefix(&self.ctx, self.overrides@, winner, page, (i + 1) as int);
                }
                return action;
            }
            i = i + 1;
        }
        assert(self.overrides@.take(i as int) =~= self.overrides@);
        None
    }

    /// Records the outcome of classifying `page` as `class`: a failure asks for deferral.
    pub fn handle_classification_result(
        &mut self,
        page: Page,
        class: KnownObject,
        res: Result<(), String>,
    )
        ensures
            final(self).should_defer == (old(self).should_defer || res is Err),
            final(self).ctx == old(self).ctx,
            final(self).page_lock == old(self).page_lock,
            final(self).jobs == old(self).jobs,
            final(self).overrides == old(self).overrides,
            final(self).streams == old(self).streams,
    {
        if res.is_err() {
            if !self.should_defer {
                self.defer();
            }
        }
    }

    /// The message that streams the outcome of extracting `page` as `class` to the
    /// front-end: the payload under the class, or a failure note under `UNKNOWN`.
    pub fn handle_extraction_result(&self, page: Page, class: KnownObject, res: Result<
        String,
        String,
    >) -> (r: Vec<u8>)
        ensures
            res is Err ==> r@ == spec_frame(
                page,
                encode_utf8(spec_class_name(KnownObject::UNKNOWN)),
                encode_utf8("failed extraction as "@) + encode_utf8(spec_class_name(class)),
            ),
            res matches Ok(payload) ==> r@ == spec_frame(
                page,
                encode_utf8(spec_class_name(class)),
                encode_utf8(payload@),
            ),
    {
        match res {
            Err(_) => {
                let mut note: Vec<u8> = Vec::new();
                append_bytes(&mut note, "failed extraction as ".as_bytes());
                append_bytes(&mut note, class.name().as_bytes());
                encode_frame(page, KnownObject::UNKNOWN, note.as_slice())
            },
            Ok(payload) => encode_frame(page, class, payload.as_str().as_bytes()),
        }
    }

    /// Asks for deferral: the next move hands over to the deferral classifier, once the
    /// outstanding work is drained.
    pub fn defer(&mut self)
        requires
            !old(self).should_defer,
        ensures
            final(self).should_defer,
            final(self).ctx == old(self).ctx,
            final(self).page_lock == old(self).page_lock,
            final(self).jobs == old(self).jobs,
            final(self).overrides == old(self).overrides,
            final(self).streams == old(self).streams,
    {
        self.should_defer = true;
    }

    /// Whether evaluating the entry conditions of the override streams at the current page
    /// is defined.
    pub open spec fn spec_streams_defined(&self) -> bool {
        forall|i: int|
            0 <= i < self.streams@.len() ==> (#[trigger] self.streams@[i]).spec_enter_defined(
                &self.ctx,
                self.spec_current_page(),
            )
    }

    /// The first override stream that takes over at the current page, if any.
    pub fn should_enter_override_stream(&self) -> (r: Option<StreamPtr>)
        requires
            self.spec_streams_defined(),
        ensures
            r matches Some(ptr) ==> {
                &&& ptr.0 < self.streams@.len()
                &&& self.streams@[ptr.0 as int].spec_should_enter(&self.ctx, self.spec_current_page())
                &&& forall|j: int|
                    0 <= j < ptr.0 ==> !(#[trigger] self.streams@[j]).spec_should_enter(
                        &self.ctx,
                        self.spec_current_page(),
                    )
            },
            r is None ==> forall|j: int|
                0 <= j < self.streams@.len() ==> !(#[trigger] self.streams@[j]).spec_should_enter(
                    &self.ctx,
                    self.spec_current_page(),
                ),
    {
        let page = self.current_page();
        let mut i: usize = 0;
        while i < self.streams.len()
            invariant
                self.spec_streams_defined(),
                page == self.spec_current_page(),
                i <= self.streams@.len(),
                forall|j: int|
                    0 <= j < i ==> !(#[trigger] self.streams@[j]).spec_should_enter(&self.ctx, page),
            decreases self.streams@.len() - i,
        {
            if self.streams[i].should_enter(&self.ctx, page) {
                return Some(StreamPtr(i));
            }
            i = i + 1;
        }
        None
    }

    /// Whether the next move's entry check is defined: no override stream that looks two
    /// pages back is asked about the page right after the first.
    pub open spec fn spec_next_move_defined(&self) -> bool {
        &&& self.wf()
        &&& (self.spec_current_page().0 < self.ctx.end_page.0 && self.spec_current_page()
            != self.ctx.start_page && !self.should_defer) ==> forall|i: int|
            0 <= i < self.streams@.len() && (#[trigger] self.streams@[i]).impl_blank_after
                ==> self.spec_current_page().0 != self.ctx.start_page.0 + 1
    }

    /// What the classification loop does next: finish at the end of the page range; step
    /// on the first page; otherwise defer when asked to, enter the first override stream
    /// that takes over (the one with the lowest position), or step.
    pub fn next_move(&self) -> (r: CommittedMove)
        requires
            self.spec_next_move_defined(),
        ensures
            self.spec_current_page().0 >= self.ctx.end_page.0 ==> r == CommittedMove::Finish,
            self.spec_current_page().0 < self.ctx.end_page.0 && self.spec_current_page()
                == self.ctx.start_page ==> r == CommittedMove::Step,
            self.spec_current_page().0 < self.ctx.end_page.0 && self.spec_current_page()
                != self.ctx.start_page && self.should_defer ==> r == CommittedMove::Defer,
            r matches CommittedMove::EnterStream(ptr) ==> ptr.0 < self.streams@.len()
                && !self.should_defer && self.streams@[ptr.0 as int].spec_should_enter(
                &self.ctx,
                self.spec_current_page(),
            ),
            r matches CommittedMove::EnterStream(ptr) ==> forall|j: int|
                0 <= j < ptr.0 ==> !(#[trigger] self.streams@[j]).spec_should_enter(
                    &self.ctx,
                    self.spec_current_page(),
                ),
            r == CommittedMove::Finish ==> self.spec_current_page().0 >= self.ctx.end_page.0,
            r == CommittedMove::Defer ==> self.should_defer && self.spec_current_page().0
                < self.ctx.end_page.0 && self.spec_current_page() != self.ctx.start_page,
            (self.spec_current_page().0 < self.ctx.end_page.0 && self.spec_current_page()
                != self.ctx.start_page && !self.should_defer && forall|j: int|
                0 <= j < self.streams@.len() ==> !(#[trigger] self.streams@[j]).spec_should_enter(
                    &self.ctx,
                    self.spec_current_page(),
                )) ==> r == CommittedMove::Step,
            r == CommittedMove::Step ==> self.spec_current_page().0 < self.ctx.end_page.0,
            (r == CommittedMove::Step && self.spec_current_page() != self.ctx.start_page)
                ==> forall|j: int|
                0 <= j < self.streams@.len() ==> !(#[trigger] self.streams@[j]).spec_should_enter(
                    &self.ctx,
                    self.spec_current_page(),
                ),
    {
        let page = self.current_page();
        if page.0 >= self.ctx.end_page.0 {
            return CommittedMove::Finish;
        }
        if page == self.ctx.start_page {
            return CommittedMove::Step;
        }
        if self.should_defer {
            return CommittedMove::Defer;
        }
        proof {
            assert forall|i: int| 0 <= i < self.streams@.len() implies (
            #[trigger] self.streams@[i]).spec_enter_defined(&self.ctx, page) by {
                assert(self.ctx.pages@.contains_key((page.0 - 1) as u32));
                if self.streams@[i].impl_blank_after {
                    assert(self.ctx.pages@.contains_key((page.0 - 2) as u32));
                }
            }
        }
        match self.should_enter_override_stream() {
            Some(stream) => CommittedMove::EnterStream(stream),
            None => CommittedMove::Step,
        }
    }
}

/// Once an override within the first `i` acts, the first acting override of the whole list
/// is the first acting one among those `i`.
proof fn lemma_override_prefix(
    ctx: &Context,
    s: Seq<OverrideConstraints>,
    class: KnownObject,
    page: Page,
    i: int,
)
    requires
        0 <= i <= s.len(),
        spec_override_action(ctx, s.take(i), class, page) is Some,
    ensures
        spec_override_action(ctx, s, class, page) == spec_override_action(ctx, s.take(i), class, page),
    decreases s.len() - i,
{
    if i < s.len() {
        assert(s.take(i + 1).drop_last() =~= s.take(i));
        lemma_override_prefix(ctx, s, class, page, i + 1);
    } else {
        assert(s.take(i) =~= s);
    }
}

/// Once the cursor of a well formed classifier has reached the end of the page range, every
/// page of the range is decided: the loop finishes with the whole range classified.
pub proof fn lemma_finished_range_is_decided(c: &CommittedClassifier, p: u32)
    requires
        c.wf(),
        c.spec_current_page().0 >= c.ctx.end_page.0,
        c.ctx.start_page.0 <= p < c.ctx.end_page.0,
    ensures
        c.ctx.pages@.contains_key(p),
{
}

/// A classifier over the pages `page_start..page_end`, starting committed on `page_start`
/// with nothing decided and no work pending.
pub fn init_test_classifier(page_start: u32, page_end: u32) -> (r: Classifier)
    requires
        page_start <= page_end,
    ensures
        r.end_page == Page(page_end),
        r.state is Committed,
        r.state.spec_base().wf(),
        r.state.spec_base().page_lock == PageLock::Unlocked(Page(page_start)),
        r.state.spec_base().ctx.start_page == Page(page_start),
        r.state.spec_base().ctx.end_page == Page(page_end),
        r.state.spec_base().ctx.pages@ == Map::<u32, KnownObject>::empty(),
        r.state.spec_base().jobs@.len() == 0,
        !r.state.spec_base().should_defer,
        r.state.spec_base().ctx.current_parent == spec_root(),
        r.state.spec_base().ctx.prev_parents.view() == Map::<u32, Seq<KnownObject>>::empty(),
        r.state.spec_base().ctx.guarantee_failures.view() == Map::<u32, Seq<KnownObject>>::empty(),
        r.state.spec_base().ctx.page_count == r.state.spec_base().ctx.end_page.0 - r.state.spec_base().ctx.start_page.0,
        r.state.spec_base().overrides@.len() == 0,
        r.state.spec_base().streams@.len() == 0,
{
    Classifier::new(Page(page_start), Page(page_end))
}

} // verus!
