//! The work the classifiers hand to the worker threads, as plain values.
use vstd::prelude::*;
use crate::page::Page;
use crate::schema::KnownObject;

verus! {

/// The kind of work a worker does for a page.
#[derive(Debug, Clone, Copy, PartialEq, Eq, Structural)]
pub enum JobType {
    /// Check whether the page is of the class.
    Classification,
    /// Extract the content of a page of the class.
    Extraction,
}

/// A piece of work waiting for a worker.
#[derive(Debug, Clone, Copy, PartialEq, Eq, Structural)]
pub struct PendingJob {
    pub class: KnownObject,
    pub page: Page,
    pub job_type: JobType,
}

/// What a worker answers for a piece of work.
pub struct FFIFuture<T> {
    pub class: KnownObject,
    pub page: Page,
    pub result: T,
    pub worker_id: u32,
}

impl PendingJob {
    /// A request to check whether `page` is of `class`.
    pub fn classify(class: KnownObject, page: Page) -> (r: Self)
        ensures
            r == (PendingJob { class, page, job_type: JobType::Classification }),
    {
        PendingJob { class, page, job_type: JobType::Classification }
    }

    /// A request to extract the content of `page` as `class`.
    pub fn extract(class: KnownObject, page: Page) -> (r: Self)
        ensures
            r == (PendingJob { class, page, job_type: JobType::Extraction }),
    {
        PendingJob { class, page, job_type: JobType::Extraction }
    }

    /// The work a finished classification leads to: a page that classified as the class it
    /// was tried as is extracted as that class; a failed classification leads to none.
    pub fn follow_up(&self, classified: bool) -> (r: Option<PendingJob>)
        requires
            self.job_type == JobType::Classification,
        ensures
            classified ==> r == Some(
                PendingJob { class: self.class, page: self.page, job_type: JobType::Extraction },
            ),
            !classified ==> r is None,
    {
        if classified {
            Some(PendingJob::extract(self.class, self.page))
        } else {
            None
        }
    }
}

} // verus!
