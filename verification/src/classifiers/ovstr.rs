use vstd::prelude::*;
use crate::classifiers::ClassificationError;
use crate::classifiers::committed::{CommittedClassifier, spec_action_class, spec_action_jobs};
use crate::constraints::overrides::{MultiPageHierarchyBreak, OverrideStream, OverrideStreamExitCase};
use crate::context::{ContextUpdateHistory, spec_decided};
use crate::page::Page;
use crate::page_lock::PageLock;
use crate::schema::KnownObject;
use crate::threading::{JobType, PendingJob};

verus! {

/// Which of the committed classifier's override streams is running.
#[derive(Debug, Clone, Copy, PartialEq, Eq, Structural)]
pub struct StreamPtr(pub usize);

/// Classifies pages by an override stream until the stream's exit case is met.
pub struct OverrideStreamClassifier {
    pub for_stream: StreamPtr,
    pub base: CommittedClassifier,
}

impl OverrideStreamClassifier {
    /// The running stream.
    pub open spec fn spec_stream(&self) -> MultiPageHierarchyBreak {
        self.base.streams@[self.for_stream.0 as int]
    }

    /// Whether the running stream is one of the base classifier's streams.
    pub open spec fn spec_valid(&self) -> bool {
        self.for_stream.0 < self.base.streams@.len()
    }

    /// `after` is `self` once the stream classified the current page: the page is decided as
    /// the stream's next class, the cursor moves on by one and the stream by one class.
    pub open spec fn spec_stream_stepped(&self, after: &Self) -> bool {
        let page = self.base.spec_current_page();
        &&& self.spec_valid()
        &&& self.spec_stream().spec_can_step()
        &&& !self.base.page_lock.is_locked()
        &&& page.0 < u32::MAX
        &&& spec_decided(
            &self.base.ctx,
            &after.base.ctx,
            page,
            self.spec_stream().fill_with@[self.spec_stream().fill_index() as int],
        )
        &&& after.base.page_lock == PageLock::Unlocked(Page((page.0 + 1) as u32))
        &&& after.for_stream == self.for_stream
        &&& after.spec_valid()
        &&& after.spec_stream().fill_index() == self.spec_stream().fill_index() + 1
        &&& after.spec_stream().fill_with == self.spec_stream().fill_with
        &&& after.spec_stream().end_on == self.spec_stream().end_on
    }

    /// `after` is `self` once the current page classified as `class`, ending the stream: the
    /// page is decided as `class` and the cursor moves on by one.
    pub open spec fn spec_exited(&self, after: &Self, class: KnownObject) -> bool {
        let page = self.base.spec_current_page();
        &&& !self.base.page_lock.is_locked()
        &&& page.0 < u32::MAX
        &&& spec_decided(&self.base.ctx, &after.base.ctx, page, class)
        &&& after.base.page_lock == PageLock::Unlocked(Page((page.0 + 1) as u32))
    }

    /// A classifier running stream `for_stream` of `base`.
    pub fn new(for_stream: StreamPtr, base: CommittedClassifier) -> (r: Self)
        ensures
            r.for_stream == for_stream,
            r.base == base,
    {
        OverrideStreamClassifier { base, for_stream }
    }

    /// The classification that decides whether the stream ends on the current page: the
    /// stream's exit class on that page, or none when the stream ends right away.
    pub fn exit_probe(&self) -> (r: Option<PendingJob>)
        requires
            self.spec_valid(),
        ensures
            self.spec_stream().spec_exit_case() matches OverrideStreamExitCase::IfClassifiedAs(c)
                ==> r == Some(
                PendingJob {
                    class: c,
                    page: self.base.spec_current_page(),
                    job_type: JobType::Classification,
                },
            ),
            self.spec_stream().spec_exit_case() is Exit ==> r is None,
    {
        let current_page = self.base.current_page();
        let stream = &self.base.streams[self.for_stream.0];
        match stream.should_exit(&self.base.ctx, current_page) {
            OverrideStreamExitCase::IfClassifiedAs(class) => Some(
                PendingJob::classify(class, current_page),
            ),
            OverrideStreamExitCase::Exit => None,
        }
    }

    /// Settles the exit probe: when the current page did classify as `class`, the page is
    /// decided as `class` and the stream ends; otherwise nothing changes and the stream goes
    /// on.
    pub fn settle_exit_probe(&mut self, class: KnownObject, classified: bool) -> (r: Result<
        bool,
        ClassificationError,
    >)
        requires
            !old(self).base.page_lock.is_locked() ==> old(self).base.spec_current_page().0
                < u32::MAX,
        ensures
            classified ==> {
                &&& r matches Ok(true)
                &&& spec_decided(
                    &old(self).base.ctx,
                    &final(self).base.ctx,
                    old(self).base.spec_current_page(),
                    class,
                )
                &&& !old(self).base.page_lock.is_locked() ==> final(self).base.page_lock
                    == PageLock::Unlocked(Page((old(self).base.spec_current_page().0 + 1) as u32))
                &&& old(self).base.page_lock.is_locked() ==> final(self).base.page_lock == old(
                    self,
                ).base.page_lock
                &&& (old(self).base.wf() && old(self).base.spec_current_page().0 < old(
                    self,
                ).base.ctx.end_page.0) ==> final(self).base.wf()
                &&& final(self).base.jobs == old(self).base.jobs
                &&& final(self).base.streams == old(self).base.streams
                &&& final(self).base.should_defer == old(self).base.should_defer
                &&& final(self).base.overrides == old(self).base.overrides
                &&& final(self).base.inferencer == old(self).base.inferencer
                &&& final(self).for_stream == old(self).for_stream
            },
            !classified ==> (r matches Ok(false)) && *final(self) == *old(self),
            (classified && !old(self).base.page_lock.is_locked()) ==> old(self).spec_exited(
                final(self),
                class,
            ),
    {
        if classified {
            let current_page = self.base.current_page();
            match self.base.decide_as(class, ContextUpdateHistory::new(), current_page) {
                Ok(()) => {},
                Err(e) => {
                    return Err(e);
                },
            }
            Ok(true)
        } else {
            Ok(false)
        }
    }

    /// Lets the stream classify the current page: the page is decided as the stream's next
    /// class and sent for extraction, and the stream moves on in its pattern.
    pub fn step_stream(&mut self) -> (r: Result<(), ClassificationError>)
        requires
            old(self).spec_valid(),
            old(self).spec_stream().spec_can_step(),
            !old(self).base.page_lock.is_locked() ==> old(self).base.spec_current_page().0
                < u32::MAX,
        ensures
            r is Ok,
            spec_decided(
                &old(self).base.ctx,
                &final(self).base.ctx,
                old(self).base.spec_current_page(),
                spec_action_class(old(self).spec_stream().spec_step_action()),
            ),
            final(self).base.jobs@ == old(self).base.jobs@ + spec_action_jobs(
                old(self).spec_stream().spec_step_action(),
                old(self).base.spec_current_page(),
            ),
            !old(self).base.page_lock.is_locked() ==> final(self).base.page_lock
                == PageLock::Unlocked(Page((old(self).base.spec_current_page().0 + 1) as u32)),
            old(self).base.page_lock.is_locked() ==> final(self).base.page_lock == old(
                self,
            ).base.page_lock,
            (old(self).base.wf() && old(self).base.spec_current_page().0 < old(
                self,
            ).base.ctx.end_page.0) ==> final(self).base.wf(),
            final(self).for_stream == old(self).for_stream,
            final(self).base.should_defer == old(self).base.should_defer,
            final(self).base.overrides == old(self).base.overrides,
            final(self).base.inferencer == old(self).base.inferencer,
            final(self).base.streams@.len() == old(self).base.streams@.len(),
            forall|j: int|
                0 <= j < old(self).base.streams@.len() && j != old(self).for_stream.0
                    ==> final(self).base.streams@[j] == old(self).base.streams@[j],
            final(self).spec_stream().fill_index() == old(self).spec_stream().fill_index() + 1,
            final(self).spec_stream().fill_with == old(self).spec_stream().fill_with,
            final(self).spec_stream().after == old(self).spec_stream().after,
            final(self).spec_stream().end_on == old(self).spec_stream().end_on,
            final(self).spec_stream().impl_blank_after == old(self).spec_stream().impl_blank_after,
            !old(self).base.page_lock.is_locked() ==> old(self).spec_stream_stepped(final(self)),
    {
        let current_page = self.base.current_page();
        let idx = self.for_stream.0;
        let mut stream = self.base.streams.remove(idx);
        let action = stream.step(&self.base.ctx, current_page);
        self.base.streams.insert(idx, stream);
        assert(self.base.streams@.len() == old(self).base.streams@.len());
        assert forall|j: int|
            0 <= j < old(self).base.streams@.len() && j != idx implies self.base.streams@[j]
            == old(self).base.streams@[j] by {
        }
        self.base.handle_override(action, ContextUpdateHistory::new())
    }
}

/// A run of stream steps: each state is the one before once the stream classified a page.
pub open spec fn spec_stream_run(os: Seq<OverrideStreamClassifier>) -> bool {
    &&& os.len() > 0
    &&& forall|k: int| 0 <= k < os.len() - 1 ==> #[trigger] os[k].spec_stream_stepped(&os[k + 1])
}

/// Over a run of stream steps the cursor moves one page per step, and the `k`-th page of the
/// run is decided as the `k`-th class of the stream's pattern from where the run began.
pub proof fn lemma_stream_run(os: Seq<OverrideStreamClassifier>)
    requires
        spec_stream_run(os),
    ensures
        os.last().base.spec_current_page().0 == os[0].base.spec_current_page().0 + (os.len() - 1),
        os.last().spec_stream().fill_index() == os[0].spec_stream().fill_index() + (os.len() - 1),
        os.last().spec_stream().fill_with == os[0].spec_stream().fill_with,
        os.last().spec_stream().end_on == os[0].spec_stream().end_on,
        os.last().for_stream == os[0].for_stream,
        forall|k: int|
            0 <= k < os.len() - 1 ==> #[trigger] os.last().base.ctx.pages@.contains_key(
                (os[0].base.spec_current_page().0 + k) as u32,
            ),
        forall|k: int|
            0 <= k < os.len() - 1 ==> #[trigger] os.last().base.ctx.pages@[(
            os[0].base.spec_current_page().0 + k) as u32] == os[0].spec_stream().fill_with@[
                os[0].spec_stream().fill_index() + k],
    decreases os.len(),
{
    if os.len() > 1 {
        let prefix = os.drop_last();
        assert forall|k: int| 0 <= k < prefix.len() - 1 implies #[trigger] prefix[k].spec_stream_stepped(
            &prefix[k + 1],
        ) by {
            assert(os[k].spec_stream_stepped(&os[k + 1]));
        }
        lemma_stream_run(prefix);
        let n = os.len() - 1;
        let m = n - 1;
        assert(os[m].spec_stream_stepped(&os[m + 1]));
        let a = os[m];
        let b = os[n];
        assert(m + 1 == n);
        assert(prefix.last() == a);
        assert(prefix[0] == os[0]);
        assert forall|k: int| 0 <= k < os.len() - 1 implies #[trigger] os.last().base.ctx.pages@.contains_key(
            (os[0].base.spec_current_page().0 + k) as u32,
        ) && os.last().base.ctx.pages@[(os[0].base.spec_current_page().0 + k) as u32]
            == os[0].spec_stream().fill_with@[os[0].spec_stream().fill_index() + k] by {
            let p = (os[0].base.spec_current_page().0 + k) as u32;
            if k < n - 1 {
                assert(prefix.last().base.ctx.pages@.contains_key(
                    (prefix[0].base.spec_current_page().0 + k) as u32,
                ));
                assert(prefix.last().base.ctx.pages@[(prefix[0].base.spec_current_page().0 + k) as u32]
                    == prefix[0].spec_stream().fill_with@[prefix[0].spec_stream().fill_index() + k]);
                assert(p != a.base.spec_current_page().0);
            } else {
                assert(p == a.base.spec_current_page().0);
            }
        }
        assert forall|k: int| 0 <= k < os.len() - 1 implies #[trigger] os.last().base.ctx.pages@[(
        os[0].base.spec_current_page().0 + k) as u32] == os[0].spec_stream().fill_with@[
            os[0].spec_stream().fill_index() + k] by {
            assert(os.last().base.ctx.pages@.contains_key((os[0].base.spec_current_page().0 + k) as u32));
        }
    }
}

/// A stream ends through a successful exit check: afterwards the page before the cursor is
/// decided as the stream's exit class.
pub proof fn lemma_stream_ends_on_exit_class(
    before: &OverrideStreamClassifier,
    after: &OverrideStreamClassifier,
)
    requires
        before.spec_valid(),
        before.spec_exited(after, before.spec_stream().end_on),
    ensures
        after.base.spec_current_page().0 >= 1,
        after.base.ctx.pages@.contains_key((after.base.spec_current_page().0 - 1) as u32),
        after.base.ctx.pages@[(after.base.spec_current_page().0 - 1) as u32]
            == before.spec_stream().end_on,
        before.spec_stream().spec_exit_case() == OverrideStreamExitCase::IfClassifiedAs(
            before.spec_stream().end_on,
        ),
{
}

} // verus!
