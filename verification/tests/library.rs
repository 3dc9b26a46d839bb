use pdf_classifier_core::constraints::definitive::DefinitiveConstraints;
use pdf_classifier_core::constraints::hard::HardConstraints;
use pdf_classifier_core::constraints::overrides::{
    BlankAfter, MultiPageHierarchyBreak, OverrideAction, OverrideStream, OverrideStreamExitCase,
};
use pdf_classifier_core::constraints::soft::SoftConstraints;
use pdf_classifier_core::constraints::CastError;
use pdf_classifier_core::context::{Context, ContextUpdate};
use pdf_classifier_core::obj_list::{KnownObjectList, ScoreList};
use pdf_classifier_core::page::Page;
use pdf_classifier_core::page_keeper::PageKeeper;
use pdf_classifier_core::result_map::ClassifierResultMap;
use pdf_classifier_core::schema::{
    get_all_dependents, get_global_independents, is_child, is_independent, is_pair,
    root_object, KnownObject, ObjectCastError,
};
use pdf_classifier_core::score::Score;
use pdf_classifier_core::stream::{encode_frame, le_bytes};
use pdf_classifier_core::threading::PendingJob;
use pdf_classifier_core::weighting::constraints::{
    HardConstraint, SkippedChildrenConstraint, SoftConstraint, ValidPairRule,
};

fn decide_page(ctx: &mut Context, page: u32, class: KnownObject) -> Vec<ContextUpdate> {
    let mut history = Vec::new();
    ctx.decide(Page(page), class, &mut history).unwrap();
    history
}

#[test]
fn object_discriminants_round_trip() {
    for v in 0u8..5 {
        let object = KnownObject::try_from_u8(v).unwrap();
        assert_eq!(object.discriminant(), v);
    }
    assert_eq!(KnownObject::try_from_u8(3), Ok(KnownObject::DIAGRAM));
    assert_eq!(
        KnownObject::try_from_u8(5),
        Err(ObjectCastError::OutOfBounds(5))
    );
}

#[test]
fn object_names_and_pairs() {
    assert_eq!(KnownObject::SUBCHAPTER.name(), "SUBCHAPTER");
    assert_eq!(KnownObject::UNKNOWN.name(), "UNKNOWN");
    assert!(KnownObject::DIAGRAM.has_pair());
    assert!(!KnownObject::CHAPTER.has_pair());
    assert!(KnownObject::DIAGRAM.is_first_in_pair());
    assert!(KnownObject::DATATABLE.is_second_in_pair());
    assert!(is_pair(KnownObject::DIAGRAM, KnownObject::DATATABLE));
    assert!(!is_pair(KnownObject::DATATABLE, KnownObject::DIAGRAM));
}

#[test]
fn schema_hierarchy() {
    assert_eq!(root_object(), KnownObject::CHAPTER);
    assert!(is_independent(KnownObject::SUBCHAPTER));
    assert!(!is_independent(KnownObject::DIAGRAM));
    assert_eq!(get_all_dependents(KnownObject::CHAPTER), vec![KnownObject::SUBCHAPTER]);
    assert_eq!(
        get_all_dependents(KnownObject::SUBCHAPTER),
        vec![KnownObject::DIAGRAM, KnownObject::DATATABLE]
    );
    assert!(get_all_dependents(KnownObject::DIAGRAM).is_empty());
    assert!(is_child(KnownObject::SUBCHAPTER, KnownObject::DATATABLE));
    assert!(!is_child(KnownObject::CHAPTER, KnownObject::DIAGRAM));
    assert_eq!(
        get_global_independents(),
        vec![KnownObject::CHAPTER, KnownObject::SUBCHAPTER]
    );
}

#[test]
fn score_weights() {
    assert_eq!(Score::PUNISHMENT_Heavy.weight(), -80);
    assert_eq!(Score::Neutral.weight(), 0);
    assert_eq!(Score::REWARD_Light.weight(), 40);
    assert_eq!(Score::REWARD_Heavy.weight(), 80);
    let list = ScoreList(vec![Score::REWARD_Heavy, Score::PUNISHMENT_Heavy, Score::REWARD_Light]);
    assert_eq!(list.sum(), 40);
    assert_eq!(ScoreList(vec![]).sum(), 0);
}

#[test]
fn page_keeper_increments_only_when_unlocked() {
    let mut keeper = PageKeeper::Unlocked(Page(1));
    assert_eq!(keeper.increment_by(3), Some(()));
    assert!(matches!(keeper, PageKeeper::Unlocked(Page(4))));
    let mut keeper = keeper.lock();
    assert_eq!(keeper.increment(), None);
    assert!(matches!(keeper, PageKeeper::Locked(Page(4))));
    let mut keeper = keeper.unlock();
    assert_eq!(keeper.increment(), Some(()));
    assert!(matches!(keeper, PageKeeper::Unlocked(Page(5))));
}

#[test]
fn result_map_keeps_recording_order() {
    let mut map = ClassifierResultMap::with_capacity(4);
    assert!(map.get(Page(1)).is_none());
    map.insert_in_page(Page(1), KnownObject::DIAGRAM);
    map.insert_in_page(Page(1), KnownObject::CHAPTER);
    map.insert_in_page(Page(2), KnownObject::SUBCHAPTER);
    assert_eq!(
        map.get(Page(1)).unwrap(),
        &vec![KnownObject::DIAGRAM, KnownObject::CHAPTER]
    );
    assert_eq!(map.get(Page(2)).unwrap(), &vec![KnownObject::SUBCHAPTER]);
}

#[test]
fn frames_are_little_endian_and_length_prefixed() {
    assert_eq!(le_bytes(0x0102_0304), vec![4, 3, 2, 1]);
    let frame = encode_frame(Page(258), KnownObject::DIAGRAM, b"ab");
    let mut expected = vec![2u8, 1, 0, 0, 7, 0, 0, 0];
    expected.extend_from_slice(b"DIAGRAM");
    expected.extend_from_slice(&[2, 0, 0, 0]);
    expected.extend_from_slice(b"ab");
    assert_eq!(frame, expected);
}

#[test]
fn decisions_read_back_and_open_parents() {
    let mut ctx = Context::new(Page(0), Page(9));
    assert!(ctx.is_first_page(Page(0)));
    assert_eq!(
        decide_page(&mut ctx, 0, KnownObject::CHAPTER),
        vec![ContextUpdate::Decision(Page(0), KnownObject::CHAPTER)]
    );
    assert_eq!(
        decide_page(&mut ctx, 1, KnownObject::SUBCHAPTER),
        vec![
            ContextUpdate::Decision(Page(1), KnownObject::SUBCHAPTER),
            ContextUpdate::NewParent(KnownObject::SUBCHAPTER)
        ]
    );
    assert_eq!(ctx.current_parent, KnownObject::SUBCHAPTER);
    assert_eq!(
        decide_page(&mut ctx, 2, KnownObject::DIAGRAM),
        vec![ContextUpdate::Decision(Page(2), KnownObject::DIAGRAM)]
    );
    assert_eq!(*ctx.get_decision(Page(1)).unwrap(), KnownObject::SUBCHAPTER);
    assert_eq!(*ctx.previous_page_inference(Page(3)), KnownObject::DIAGRAM);
    assert!(ctx.get_decision(Page(5)).is_none());
    assert_eq!(
        ctx.prev_parents.get(Page(1)).unwrap(),
        &vec![KnownObject::CHAPTER]
    );
}

#[test]
fn guarantee_failures_are_filtered_out() {
    let list = KnownObjectList::from_vec(vec![
        KnownObject::CHAPTER,
        KnownObject::DIAGRAM,
        KnownObject::CHAPTER,
        KnownObject::DATATABLE,
    ]);
    let filtered = list.filter_out(&vec![KnownObject::DIAGRAM]);
    assert_eq!(
        filtered.0,
        vec![KnownObject::CHAPTER, KnownObject::DATATABLE]
    );
    assert_eq!(filtered.len(), 2);
    assert_eq!(
        KnownObjectList::new().0,
        vec![
            KnownObject::UNKNOWN,
            KnownObject::CHAPTER,
            KnownObject::SUBCHAPTER,
            KnownObject::DIAGRAM,
            KnownObject::DATATABLE
        ]
    );
}

#[test]
fn definitive_constraints_on_pages() {
    let mut ctx = Context::new(Page(0), Page(9));
    let first_page = DefinitiveConstraints::FirstPageRoot;
    assert!(first_page.eval(&ctx, KnownObject::CHAPTER, Page(0)));
    assert!(!first_page.eval(&ctx, KnownObject::SUBCHAPTER, Page(0)));
    decide_page(&mut ctx, 0, KnownObject::CHAPTER);
    decide_page(&mut ctx, 1, KnownObject::DIAGRAM);
    let second = DefinitiveConstraints::SecondInPair;
    assert!(second.eval(&ctx, KnownObject::DATATABLE, Page(2)));
    assert!(!second.eval(&ctx, KnownObject::DIAGRAM, Page(2)));
    assert_eq!(first_page.name(), "FirstPageRoot");
    assert_eq!(
        DefinitiveConstraints::try_from_usize(1),
        Ok(DefinitiveConstraints::SecondInPair)
    );
    assert_eq!(
        DefinitiveConstraints::try_from_usize(2),
        Err(CastError::ConstraintCastError(2))
    );
}

#[test]
fn hard_and_soft_constraints_on_pages() {
    let mut ctx = Context::new(Page(0), Page(9));
    decide_page(&mut ctx, 0, KnownObject::CHAPTER);
    let illegal = HardConstraints::IllegalSecondInPair;
    assert!(!illegal.eval(&ctx, KnownObject::DATATABLE, Page(1)));
    assert!(illegal.eval(&ctx, KnownObject::DIAGRAM, Page(1)));
    assert_eq!(
        HardConstraints::try_from_usize(1),
        Err(CastError::ConstraintCastError(1))
    );
    let natural = SoftConstraints::REWARD_IsNaturalChild;
    assert_eq!(natural.eval(&ctx, KnownObject::SUBCHAPTER, Page(1)), Score::REWARD_Light);
    assert_eq!(natural.eval(&ctx, KnownObject::DIAGRAM, Page(1)), Score::Neutral);
    let first_in_pair = SoftConstraints::REWARD_FirstInPair;
    assert_eq!(first_in_pair.eval(&ctx, KnownObject::DIAGRAM, Page(1)), Score::REWARD_Heavy);
    assert_eq!(first_in_pair.eval(&ctx, KnownObject::CHAPTER, Page(1)), Score::Neutral);
    assert_eq!(
        SoftConstraints::try_from_usize(0),
        Ok(SoftConstraints::REWARD_IsNaturalChild)
    );
    assert_eq!(first_in_pair.name(), "REWARD_FirstInPair");
}

#[test]
fn weighting_rules() {
    let mut ctx = Context::new(Page(0), Page(9));
    decide_page(&mut ctx, 0, KnownObject::SUBCHAPTER);
    assert!(!ValidPairRule::eval(&ctx, KnownObject::DATATABLE, Page(1)));
    assert_eq!(
        SkippedChildrenConstraint::eval(&ctx, KnownObject::DIAGRAM, Page(1)),
        Score::Neutral
    );
    assert_eq!(
        SkippedChildrenConstraint::eval(&ctx, KnownObject::CHAPTER, Page(1)),
        Score::PUNISHMENT_Heavy
    );
    decide_page(&mut ctx, 1, KnownObject::DIAGRAM);
    assert!(ValidPairRule::eval(&ctx, KnownObject::DATATABLE, Page(2)));
}

#[test]
fn blank_after_skips_only_after_its_class() {
    let mut ctx = Context::new(Page(0), Page(9));
    let blank = BlankAfter { config: KnownObject::CHAPTER };
    let wrapped = pdf_classifier_core::constraints::overrides::OverrideConstraints::BlankAfter(blank);
    assert_eq!(wrapped.eval(&ctx, KnownObject::CHAPTER, Page(0)), None);
    decide_page(&mut ctx, 0, KnownObject::CHAPTER);
    assert_eq!(
        wrapped.eval(&ctx, KnownObject::SUBCHAPTER, Page(1)),
        Some(OverrideAction::Skip)
    );
    decide_page(&mut ctx, 1, KnownObject::UNKNOWN);
    assert_eq!(wrapped.eval(&ctx, KnownObject::SUBCHAPTER, Page(2)), None);
    assert_eq!(wrapped.name(), "BlankAfter");
}

#[test]
fn hierarchy_break_cycles_its_pattern() {
    let mut ctx = Context::new(Page(0), Page(9));
    let mut stream = MultiPageHierarchyBreak::new(
        KnownObject::CHAPTER,
        true,
        KnownObject::SUBCHAPTER,
        vec![KnownObject::DIAGRAM, KnownObject::DATATABLE],
    );
    decide_page(&mut ctx, 0, KnownObject::CHAPTER);
    decide_page(&mut ctx, 1, KnownObject::UNKNOWN);
    assert!(stream.should_enter(&ctx, Page(2)));
    assert_eq!(
        stream.should_exit(&ctx, Page(2)),
        OverrideStreamExitCase::IfClassifiedAs(KnownObject::SUBCHAPTER)
    );
    assert_eq!(stream.step(&ctx, Page(2)), OverrideAction::ClassifyAs(KnownObject::DIAGRAM));
    assert_eq!(stream.step(&ctx, Page(3)), OverrideAction::ClassifyAs(KnownObject::DATATABLE));
    assert_eq!(stream.current_fillin_idx, 2);
}

#[test]
fn classification_is_followed_by_extraction() {
    let job = PendingJob::classify(KnownObject::DIAGRAM, Page(7));
    assert_eq!(
        job.follow_up(true),
        Some(PendingJob::extract(KnownObject::DIAGRAM, Page(7)))
    );
    assert_eq!(job.follow_up(false), None);
}

#[test]
fn pair_opener_is_rewarded_after_a_page_without_pair() {
    let mut ctx = Context::new(Page(0), Page(9));
    decide_page(&mut ctx, 0, KnownObject::CHAPTER);
    decide_page(&mut ctx, 1, KnownObject::UNKNOWN);
    let first_in_pair = SoftConstraints::REWARD_FirstInPair;
    assert_eq!(first_in_pair.eval(&ctx, KnownObject::DIAGRAM, Page(2)), Score::REWARD_Heavy);
    assert_eq!(first_in_pair.eval(&ctx, KnownObject::DATATABLE, Page(2)), Score::Neutral);
    decide_page(&mut ctx, 2, KnownObject::DIAGRAM);
    assert_eq!(first_in_pair.eval(&ctx, KnownObject::DIAGRAM, Page(3)), Score::Neutral);
}
