use pdf_classifier_core::classifiers::committed::{CommittedClassifier, CommittedMove};
use pdf_classifier_core::classifiers::defer::{DeferralClassifier, DeferralStep};
use pdf_classifier_core::classifiers::ovstr::{OverrideStreamClassifier, StreamPtr};
use pdf_classifier_core::classifiers::{Classifier, ClassifierState};
use pdf_classifier_core::constraints::overrides::{
    BlankAfter, MultiPageHierarchyBreak, OverrideAction, OverrideConstraints,
};
use pdf_classifier_core::context::Context;
use pdf_classifier_core::inferencer::Inferencer;
use pdf_classifier_core::page::Page;
use pdf_classifier_core::page_lock::PageLock;
use pdf_classifier_core::schema::KnownObject;
use pdf_classifier_core::stream::encode_frame;
use pdf_classifier_core::threading::{JobType, PendingJob};

const FIRST_SUB_CHAPTER_PAGE: u32 = 4;
const SECOND_SUB_CHAPTER_PAGE: u32 = 13;
const LARGE_TEST_DOC_END_PAGE: u32 = 40;

/// Whether a page of the test document classifies as `class`: its pages are a chapter, then
/// subchapters at the two subchapter pages with diagram/datatable pairs between them.
fn document_classifies(page: Page, class: KnownObject) -> bool {
    let expected = if page.0 == 0 {
        KnownObject::CHAPTER
    } else if page.0 == FIRST_SUB_CHAPTER_PAGE || page.0 == SECOND_SUB_CHAPTER_PAGE {
        KnownObject::SUBCHAPTER
    } else if page.0 % 2 == 1 {
        KnownObject::DIAGRAM
    } else {
        KnownObject::DATATABLE
    };
    expected == class
}

fn committed(start: u32, end: u32) -> CommittedClassifier {
    CommittedClassifier::new(
        Page(start),
        Inferencer::new(),
        Context::new(Page(start), Page(end)),
    )
}

#[test]
fn committed_test_first_page_classification() {
    let mut classifier = committed(0, 1);
    classifier.step().unwrap();
    if let Some(known_object) = classifier.ctx.get_decision(Page(0)) {
        assert!(*known_object == KnownObject::CHAPTER)
    } else {
        panic!("no page was found to be classified")
    }
}

#[test]
fn steps_decide_and_queue_classification() {
    let mut classifier = committed(0, 5);
    assert_eq!(classifier.next_move(), CommittedMove::Step);
    classifier.step().unwrap();
    assert_eq!(classifier.current_page(), Page(1));
    assert_eq!(
        classifier.jobs,
        vec![PendingJob::classify(KnownObject::CHAPTER, Page(0))]
    );
    // After a chapter the first of a pair outweighs the natural child.
    classifier.step().unwrap();
    assert_eq!(*classifier.ctx.get_decision(Page(1)).unwrap(), KnownObject::DIAGRAM);
    assert_eq!(classifier.ctx.current_parent, KnownObject::CHAPTER);
    classifier.step().unwrap();
    assert_eq!(*classifier.ctx.get_decision(Page(2)).unwrap(), KnownObject::DATATABLE);
    classifier.step().unwrap();
    assert_eq!(*classifier.ctx.get_decision(Page(3)).unwrap(), KnownObject::DIAGRAM);
    assert_eq!(classifier.jobs.len(), 4);
    assert_eq!(classifier.next_move(), CommittedMove::Step);
    classifier.step().unwrap();
    assert_eq!(classifier.next_move(), CommittedMove::Finish);
}

#[test]
fn failed_classification_asks_for_deferral() {
    let mut classifier = committed(0, 5);
    classifier.step().unwrap();
    classifier.handle_classification_result(Page(0), KnownObject::CHAPTER, Ok(()));
    assert!(!classifier.should_defer);
    classifier.handle_classification_result(
        Page(0),
        KnownObject::CHAPTER,
        Err("not a chapter".to_string()),
    );
    assert!(classifier.should_defer);
    assert_eq!(classifier.next_move(), CommittedMove::Defer);
}

#[test]
fn blank_after_override_skips_the_page() {
    let mut classifier = committed(0, 5);
    classifier.overrides = vec![OverrideConstraints::BlankAfter(BlankAfter {
        config: KnownObject::CHAPTER,
    })];
    assert_eq!(classifier._override(KnownObject::CHAPTER), None);
    classifier.step().unwrap();
    assert_eq!(
        classifier._override(KnownObject::SUBCHAPTER),
        Some(OverrideAction::Skip)
    );
    classifier.step().unwrap();
    assert_eq!(*classifier.ctx.get_decision(Page(1)).unwrap(), KnownObject::UNKNOWN);
    assert_eq!(classifier.jobs.len(), 1);
}

#[test]
fn handle_override_sends_the_asked_work() {
    let mut classifier = committed(0, 5);
    classifier.step().unwrap();
    classifier
        .handle_override(OverrideAction::ClassifyAs(KnownObject::DIAGRAM), Vec::new())
        .unwrap();
    classifier
        .handle_override(OverrideAction::InferAs(KnownObject::DATATABLE), Vec::new())
        .unwrap();
    assert_eq!(
        classifier.jobs,
        vec![
            PendingJob::classify(KnownObject::CHAPTER, Page(0)),
            PendingJob::extract(KnownObject::DIAGRAM, Page(1)),
            PendingJob::classify(KnownObject::DATATABLE, Page(2)),
        ]
    );
    assert_eq!(classifier.current_page(), Page(3));
}

#[test]
fn extraction_results_become_frames() {
    let classifier = committed(0, 5);
    let ok = classifier.handle_extraction_result(
        Page(2),
        KnownObject::DIAGRAM,
        Ok("payload".to_string()),
    );
    assert_eq!(ok, encode_frame(Page(2), KnownObject::DIAGRAM, b"payload"));
    let failed = classifier.handle_extraction_result(
        Page(2),
        KnownObject::DIAGRAM,
        Err("broken".to_string()),
    );
    assert_eq!(
        failed,
        encode_frame(Page(2), KnownObject::UNKNOWN, b"failed extraction as DIAGRAM")
    );
}

#[test]
fn test_deferral_run() {
    let mut classifier = committed(FIRST_SUB_CHAPTER_PAGE, LARGE_TEST_DOC_END_PAGE);

    classifier
        .decide_and_classify_as(KnownObject::SUBCHAPTER, Page(FIRST_SUB_CHAPTER_PAGE))
        .unwrap();

    classifier.defer();

    // The look-ahead search, run against the test document: its second subchapter is the
    // first independent page after the first one.
    let mut deferral = DeferralClassifier::new(classifier);
    let classifier = loop {
        assert!(!deferral.exhausted());
        let job = deferral.spawn_worker();
        let classified = document_classifies(job.page, job.class);
        match deferral
            .settle(job.page, job.class, classified)
            .expect("deferral should've succeeded")
        {
            DeferralStep::Searching(next) => deferral = next,
            DeferralStep::Finished(committed) => break committed,
        }
    };

    for page_num in FIRST_SUB_CHAPTER_PAGE + 1..SECOND_SUB_CHAPTER_PAGE - 1 {
        let page = Page(page_num);

        let filled_in = classifier
            .ctx
            .get_decision(page)
            .expect(&format!("should've filled in page {:?}", page));

        if page.0 % 2 == 0 {
            assert!(
                *filled_in == KnownObject::DATATABLE,
                "page {:?} should've been filled in as a diagram",
                page
            )
        } else {
            assert!(
                *filled_in == KnownObject::DIAGRAM,
                "page {:?} should've been filled in as a diagram",
                page
            )
        }
    }
    assert_eq!(
        *classifier.ctx.get_decision(Page(SECOND_SUB_CHAPTER_PAGE)).unwrap(),
        KnownObject::SUBCHAPTER
    );
    assert_eq!(
        classifier.page_lock,
        PageLock::Unlocked(Page(SECOND_SUB_CHAPTER_PAGE + 1))
    );
    assert!(!classifier.should_defer);
}

#[test]
fn deferral_cycles_independents_and_records_failures() {
    let mut classifier = committed(0, 10);
    classifier.step().unwrap();
    classifier.step().unwrap();
    let mut deferral = DeferralClassifier::new(classifier);
    assert_eq!(deferral.current_page(), Page(2));
    let a = deferral.spawn_worker();
    let b = deferral.spawn_worker();
    let c = deferral.spawn_worker();
    assert_eq!(a, PendingJob::classify(KnownObject::SUBCHAPTER, Page(2)));
    assert_eq!(b, PendingJob::classify(KnownObject::CHAPTER, Page(3)));
    assert_eq!(c, PendingJob::classify(KnownObject::SUBCHAPTER, Page(4)));
    deferral.handle_failed(Page(2), KnownObject::SUBCHAPTER);
    assert_eq!(
        deferral.base.ctx.guarantee_failures.get(Page(2)).unwrap(),
        &vec![KnownObject::SUBCHAPTER]
    );
    assert_eq!(deferral.base.page_lock, PageLock::Locked(Page(2)));
}

#[test]
fn deferral_fills_by_inference_for_chapters() {
    let mut classifier = committed(0, 10);
    classifier.step().unwrap();
    classifier.step().unwrap();
    let deferral = DeferralClassifier::new(classifier);
    // A chapter's only dependent is the subchapter: every skipped page becomes one.
    let classifier = deferral.finalize(Page(5), KnownObject::CHAPTER).unwrap();
    for page in 2..5 {
        assert_eq!(
            *classifier.ctx.get_decision(Page(page)).unwrap(),
            KnownObject::SUBCHAPTER
        );
    }
    assert_eq!(classifier.jobs.len(), 2 + 3);
    assert_eq!(
        classifier.jobs[2],
        PendingJob {
            class: KnownObject::SUBCHAPTER,
            page: Page(2),
            job_type: JobType::Classification
        }
    );
}

#[test]
fn deferral_with_no_dependents_infers_unknown() {
    let mut classifier = committed(0, 10);
    classifier.step().unwrap();
    classifier.step().unwrap();
    let deferral = DeferralClassifier::new(classifier);
    let classifier = deferral.finalize(Page(4), KnownObject::DATATABLE).unwrap();
    assert_eq!(
        *classifier.ctx.get_decision(Page(2)).unwrap(),
        KnownObject::UNKNOWN
    );
    assert_eq!(
        *classifier.ctx.get_decision(Page(3)).unwrap(),
        KnownObject::UNKNOWN
    );
}

#[test]
fn override_stream_fills_until_exit_class() {
    let mut classifier = committed(0, 10);
    classifier.streams = vec![MultiPageHierarchyBreak::new(
        KnownObject::DIAGRAM,
        false,
        KnownObject::CHAPTER,
        vec![KnownObject::DIAGRAM, KnownObject::DATATABLE],
    )];
    classifier.step().unwrap();
    classifier.step().unwrap();
    let ptr = match classifier.next_move() {
        CommittedMove::EnterStream(ptr) => ptr,
        other => panic!("expected to enter the stream, got {:?}", other),
    };
    assert_eq!(ptr, StreamPtr(0));
    let mut stream = OverrideStreamClassifier::new(ptr, classifier);
    let probe = stream.exit_probe().unwrap();
    assert_eq!(probe, PendingJob::classify(KnownObject::CHAPTER, Page(2)));
    assert_eq!(stream.settle_exit_probe(probe.class, false).unwrap(), false);
    stream.step_stream().unwrap();
    stream.step_stream().unwrap();
    assert_eq!(
        *stream.base.ctx.get_decision(Page(2)).unwrap(),
        KnownObject::DIAGRAM
    );
    assert_eq!(
        *stream.base.ctx.get_decision(Page(3)).unwrap(),
        KnownObject::DATATABLE
    );
    assert_eq!(stream.base.streams[0].current_fillin_idx, 2);
    let probe = stream.exit_probe().unwrap();
    assert_eq!(probe.page, Page(4));
    assert_eq!(stream.settle_exit_probe(probe.class, true).unwrap(), true);
    assert_eq!(
        *stream.base.ctx.get_decision(Page(4)).unwrap(),
        KnownObject::CHAPTER
    );
    assert_eq!(stream.base.current_page(), Page(5));
    assert_eq!(
        stream.base.jobs[2..].to_vec(),
        vec![
            PendingJob::extract(KnownObject::DIAGRAM, Page(2)),
            PendingJob::extract(KnownObject::DATATABLE, Page(3)),
        ]
    );
}

#[test]
fn classifier_starts_committed() {
    let classifier = Classifier::new(Page(3), Page(8));
    assert_eq!(classifier.end_page, Page(8));
    assert_eq!(classifier.state.current_page(), Page(3));
    match &classifier.state {
        ClassifierState::Committed(c) => assert_eq!(c.ctx.start_page, Page(3)),
        _ => panic!("should start committed"),
    }
    assert!(classifier.state.resulted_structure().is_empty());
}

#[test]
fn state_gives_access_to_the_committed_classifier() {
    let mut classifier = Classifier::new(Page(0), Page(4));
    classifier.state.committed().step().unwrap();
    assert_eq!(classifier.state.current_page(), Page(1));
    let pages = classifier.state.resulted_structure();
    assert_eq!(pages.get(&0), Some(&KnownObject::CHAPTER));
    assert_eq!(pages.len(), 1);
}

#[test]
fn finished_classifier_decides_every_page() {
    let mut classifier = committed(0, 6);
    while classifier.next_move() != CommittedMove::Finish {
        classifier.step().unwrap();
    }
    assert_eq!(classifier.current_page(), Page(6));
    for page in 0..6 {
        assert!(classifier.ctx.get_decision(Page(page)).is_some());
    }
    assert_eq!(classifier.ctx.pages.len(), 6);
}

#[test]
fn settling_look_ahead_results() {
    let mut classifier = committed(0, 10);
    classifier.step().unwrap();
    classifier.step().unwrap();
    let deferral = DeferralClassifier::new(classifier);
    let deferral = match deferral.settle(Page(2), KnownObject::SUBCHAPTER, false).unwrap() {
        DeferralStep::Searching(d) => d,
        DeferralStep::Finished(_) => panic!("a failed classification should not end deferral"),
    };
    assert_eq!(
        deferral.base.ctx.guarantee_failures.get(Page(2)).unwrap(),
        &vec![KnownObject::SUBCHAPTER]
    );
    match deferral.settle(Page(3), KnownObject::SUBCHAPTER, true).unwrap() {
        DeferralStep::Finished(c) => {
            assert_eq!(*c.ctx.get_decision(Page(3)).unwrap(), KnownObject::SUBCHAPTER);
            // A subchapter's dependents are a pair: the skipped page opens it.
            assert_eq!(*c.ctx.get_decision(Page(2)).unwrap(), KnownObject::DIAGRAM);
            assert_eq!(c.page_lock, PageLock::Unlocked(Page(4)));
            assert!(!c.should_defer);
        }
        DeferralStep::Searching(_) => panic!("a successful classification ends deferral"),
    }
}

#[test]
fn ordinary_pages_step() {
    let mut classifier = committed(0, 5);
    classifier.step().unwrap();
    assert_eq!(classifier.next_move(), CommittedMove::Step);
    classifier.step().unwrap();
    assert_eq!(classifier.next_move(), CommittedMove::Step);
}

#[test]
fn stream_run_follows_its_pattern_and_ends_on_exit_class() {
    let mut classifier = committed(0, 12);
    classifier.streams = vec![MultiPageHierarchyBreak::new(
        KnownObject::DIAGRAM,
        false,
        KnownObject::SUBCHAPTER,
        vec![KnownObject::DATATABLE, KnownObject::DIAGRAM, KnownObject::DATATABLE],
    )];
    classifier.step().unwrap();
    classifier.step().unwrap();
    let ptr = match classifier.next_move() {
        CommittedMove::EnterStream(ptr) => ptr,
        other => panic!("expected to enter the stream, got {:?}", other),
    };
    let mut stream = OverrideStreamClassifier::new(ptr, classifier);
    for _ in 0..3 {
        let probe = stream.exit_probe().unwrap();
        assert_eq!(probe.class, KnownObject::SUBCHAPTER);
        assert!(!stream.settle_exit_probe(probe.class, false).unwrap());
        stream.step_stream().unwrap();
    }
    for (k, class) in [KnownObject::DATATABLE, KnownObject::DIAGRAM, KnownObject::DATATABLE]
        .iter()
        .enumerate()
    {
        assert_eq!(*stream.base.ctx.get_decision(Page(2 + k as u32)).unwrap(), *class);
    }
    assert_eq!(stream.base.current_page(), Page(5));
    let probe = stream.exit_probe().unwrap();
    assert!(stream.settle_exit_probe(probe.class, true).unwrap());
    assert_eq!(stream.base.current_page(), Page(6));
    assert_eq!(*stream.base.ctx.get_decision(Page(5)).unwrap(), KnownObject::SUBCHAPTER);
}

#[test]
fn the_first_stream_that_takes_over_is_entered() {
    let mut classifier = committed(0, 10);
    classifier.streams = vec![
        MultiPageHierarchyBreak::new(
            KnownObject::SUBCHAPTER,
            false,
            KnownObject::CHAPTER,
            vec![KnownObject::DIAGRAM],
        ),
        MultiPageHierarchyBreak::new(
            KnownObject::DIAGRAM,
            false,
            KnownObject::CHAPTER,
            vec![KnownObject::DATATABLE],
        ),
        MultiPageHierarchyBreak::new(
            KnownObject::DIAGRAM,
            false,
            KnownObject::SUBCHAPTER,
            vec![KnownObject::DIAGRAM],
        ),
    ];
    classifier.step().unwrap();
    classifier.step().unwrap();
    assert_eq!(classifier.next_move(), CommittedMove::EnterStream(StreamPtr(1)));
}

#[test]
fn deferral_fill_decisions_move_the_parent() {
    let mut classifier = committed(0, 10);
    classifier.step().unwrap();
    classifier.step().unwrap();
    assert_eq!(classifier.ctx.current_parent, KnownObject::CHAPTER);
    let deferral = DeferralClassifier::new(classifier);
    let classifier = deferral.finalize(Page(5), KnownObject::CHAPTER).unwrap();
    // The first filled-in subchapter opens a new parent; the later ones sit under it.
    assert_eq!(classifier.ctx.current_parent, KnownObject::SUBCHAPTER);
    assert_eq!(
        classifier.ctx.prev_parents.get(Page(2)).unwrap(),
        &vec![KnownObject::CHAPTER]
    );
    assert!(classifier.ctx.prev_parents.get(Page(3)).is_none());
    assert!(classifier.ctx.prev_parents.get(Page(5)).is_none());
    assert_eq!(classifier.ctx.page_count, 10);
}
