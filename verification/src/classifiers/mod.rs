//! The classifier state machines. Each decides what to do with the pages and the results
//! the worker threads report; a driver performs the work they ask for and feeds back
//! the results.
use vstd::prelude::*;
use std::collections::HashMap;
use crate::classifiers::committed::CommittedClassifier;
use crate::classifiers::defer::DeferralClassifier;
use crate::classifiers::ovstr::OverrideStreamClassifier;
use crate::context::{Context, ContextError};
use crate::inferencer::{InferenceError, Inferencer};
use crate::page::Page;
use crate::page_lock::PageLock;
use crate::schema::{KnownObject, spec_root};

pub mod committed;
pub mod defer;
pub mod ovstr;

verus! {

/// The number of pages a step classifies.
pub const STEP_COUNT: usize = 1;

/// A failure of the classification loop.
#[derive(Debug)]
pub enum ClassificationError {
    InferenceError(InferenceError),
    ContextRecordError(ContextError),
    PageLockLocked,
    RecordNotFound,
}

/// The mode the classifier is in.
pub enum ClassifierState {
    Committed(CommittedClassifier),
    Deferral(DeferralClassifier),
    OverrideStream(OverrideStreamClassifier),
    /// Between modes, while the classifier is moved from one to the next.
    Transition,
}

impl ClassifierState {
    /// The committed classifier underneath the current mode.
    pub open spec fn spec_base(&self) -> CommittedClassifier
        recommends
            !(self is Transition),
    {
        match self {
            ClassifierState::Committed(c) => *c,
            ClassifierState::Deferral(d) => d.base,
            ClassifierState::OverrideStream(o) => o.base,
            ClassifierState::Transition => arbitrary(),
        }
    }

    /// The page the current mode is working on.
    pub open spec fn spec_current_page(&self) -> Page
        recommends
            !(self is Transition),
    {
        match self {
            ClassifierState::Committed(c) => c.spec_current_page(),
            ClassifierState::Deferral(d) => d.spec_current_page(),
            ClassifierState::OverrideStream(o) => o.base.spec_current_page(),
            ClassifierState::Transition => arbitrary(),
        }
    }

    /// The committed classifier underneath the current mode, to work on in place.
    pub fn committed(&mut self) -> (r: &mut CommittedClassifier)
        requires
            !(*old(self) is Transition),
        ensures
            *r == old(self).spec_base(),
            *old(self) is Committed ==> *final(self) == ClassifierState::Committed(*final(r)),
            *old(self) is Deferral ==> *final(self) == ClassifierState::Deferral(
                DeferralClassifier { base: *final(r), ..old(self)->Deferral_0 },
            ),
            *old(self) is OverrideStream ==> *final(self) == ClassifierState::OverrideStream(
                OverrideStreamClassifier { base: *final(r), ..old(self)->OverrideStream_0 },
            ),
    {
        match self {
            ClassifierState::Committed(c) => c,
            ClassifierState::Deferral(d) => &mut d.base,
            ClassifierState::OverrideStream(o) => &mut o.base,
            ClassifierState::Transition => unreached(),
        }
    }

    /// The page the current mode is working on.
    pub fn current_page(&self) -> (r: Page)
        requires
            !(self is Transition),
        ensures
            r == self.spec_current_page(),
    {
        match self {
            ClassifierState::Committed(c) => c.current_page(),
            ClassifierState::Deferral(c) => c.current_page(),
            ClassifierState::OverrideStream(c) => c.base.current_page(),
            ClassifierState::Transition => Page(0),
        }
    }

    /// The decisions made, keyed by page number.
    pub fn resulted_structure(self) -> (r: HashMap<u32, KnownObject>)
        requires
            !(self is Transition),
        ensures
            r@ == self.spec_base().ctx.pages@,
    {
        match self {
            ClassifierState::Committed(committed_classifier) => committed_classifier.ctx.pages,
            ClassifierState::Deferral(deferral_classifier) => deferral_classifier.base.ctx.pages,
            ClassifierState::OverrideStream(override_stream_classifier) => {
                override_stream_classifier.base.ctx.pages
            },
            ClassifierState::Transition => HashMap::new(),
        }
    }
}

/// Classifies the pages `start_page..end_page` by moving between the committed, deferral
/// and override stream modes.
pub struct Classifier {
    pub state: ClassifierState,
    pub end_page: Page,
}

impl Classifier {
    /// A classifier that starts committed on `start_page`, with nothing decided.
    pub fn new(start_page: Page, end_page: Page) -> (r: Self)
        requires
            start_page.0 <= end_page.0,
        ensures
            r.end_page == end_page,
            r.state is Committed,
            r.state.spec_base().wf(),
            r.state.spec_base().page_lock == PageLock::Unlocked(start_page),
            r.state.spec_base().ctx.start_page == start_page,
            r.state.spec_base().ctx.end_page == end_page,
            r.state.spec_base().ctx.pages@ == Map::<u32, KnownObject>::empty(),
            !r.state.spec_base().should_defer,
            r.state.spec_base().jobs@.len() == 0,
            r.state.spec_base().ctx.current_parent == spec_root(),
            r.state.spec_base().ctx.prev_parents.view() == Map::<u32, Seq<KnownObject>>::empty(),
            r.state.spec_base().ctx.guarantee_failures.view() == Map::<u32, Seq<KnownObject>>::empty(),
            r.state.spec_base().ctx.page_count == r.state.spec_base().ctx.end_page.0 - r.state.spec_base().ctx.start_page.0,
            r.state.spec_base().overrides@.len() == 0,
            r.state.spec_base().streams@.len() == 0,
    {
        Classifier {
            state: ClassifierState::Committed(
                CommittedClassifier::new(start_page, Inferencer::new(), Context::new(start_page, end_page)),
            ),
            end_page,
        }
    }
}

} // verus!
