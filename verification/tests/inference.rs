use pdf_classifier_core::context::{Context, ContextUpdate};
use pdf_classifier_core::inferencer::Inferencer;
use pdf_classifier_core::obj_list::KnownObjectList;
use pdf_classifier_core::page::Page;
use pdf_classifier_core::schema::KnownObject;

#[test]
pub fn test_score_manage_step() {
    let start_page = Page(0);
    let end_page = Page(9);

    let mut manager = Inferencer::new();
    let mut ctx = Context::new(start_page, end_page);

    match manager.infer(&mut ctx, start_page, &KnownObjectList::new()) {
        Ok(r) => {
            assert!(r == KnownObject::CHAPTER);
        }
        Err(e) => panic!("{:?}", e),
    }
}

fn decide(ctx: &mut Context, page: u32, class: KnownObject) -> Vec<ContextUpdate> {
    let mut history = Vec::new();
    ctx.decide(Page(page), class, &mut history).unwrap();
    history
}

#[test]
fn second_in_pair_follows_first_in_pair() {
    let mut ctx = Context::new(Page(0), Page(9));
    let mut inferencer = Inferencer::new();
    decide(&mut ctx, 0, KnownObject::CHAPTER);
    decide(&mut ctx, 1, KnownObject::SUBCHAPTER);
    decide(&mut ctx, 2, KnownObject::DIAGRAM);
    let winner = inferencer
        .infer(&mut ctx, Page(3), &KnownObjectList::new())
        .unwrap();
    assert_eq!(winner, KnownObject::DATATABLE);
}

#[test]
fn soft_scores_pick_the_pair_opener_after_a_subchapter() {
    let mut ctx = Context::new(Page(0), Page(9));
    let mut inferencer = Inferencer::new();
    decide(&mut ctx, 0, KnownObject::CHAPTER);
    decide(&mut ctx, 1, KnownObject::SUBCHAPTER);
    // After a subchapter the datatable is ruled out, the diagram is both a natural child
    // of the subchapter and the opener of a pair.
    let winner = inferencer
        .infer(&mut ctx, Page(2), &KnownObjectList::new())
        .unwrap();
    assert_eq!(winner, KnownObject::DIAGRAM);
}

#[test]
fn known_failures_are_never_inferred() {
    let mut ctx = Context::new(Page(0), Page(9));
    let mut inferencer = Inferencer::new();
    decide(&mut ctx, 0, KnownObject::CHAPTER);
    decide(&mut ctx, 1, KnownObject::SUBCHAPTER);
    ctx.guarantee_failure_of(KnownObject::DIAGRAM, Page(2));
    let winner = inferencer
        .infer(&mut ctx, Page(2), &KnownObjectList::new())
        .unwrap();
    // Without the diagram nothing scores, and the last of the equally scored survivors wins.
    assert_ne!(winner, KnownObject::DIAGRAM);
    assert_eq!(winner, KnownObject::SUBCHAPTER);
}

#[test]
fn first_page_without_root_candidate_is_unknown() {
    let mut ctx = Context::new(Page(3), Page(9));
    let mut inferencer = Inferencer::new();
    let winner = inferencer
        .infer(&mut ctx, Page(3), &KnownObjectList::from_vec(vec![]))
        .unwrap();
    assert_eq!(winner, KnownObject::UNKNOWN);
}

#[test]
fn filters_and_sort_by_stage() {
    let mut ctx = Context::new(Page(0), Page(9));
    decide(&mut ctx, 0, KnownObject::CHAPTER);
    decide(&mut ctx, 1, KnownObject::SUBCHAPTER);
    let all = KnownObjectList::new();
    assert_eq!(all.len(), 5);

    let defin = all.clone().filter_by_definitive_constraints(&ctx, Page(2)).unwrap();
    assert_eq!(defin.0, KnownObjectList::new().0);

    let hard = KnownObjectList::new()
        .filter_by_hard_constraints(&ctx, Page(2))
        .unwrap();
    assert_eq!(
        hard.0,
        vec![
            KnownObject::UNKNOWN,
            KnownObject::CHAPTER,
            KnownObject::SUBCHAPTER,
            KnownObject::DIAGRAM
        ]
    );

    let sorted = hard.sort_by_soft_constraints(&ctx, Page(2)).unwrap();
    // UNKNOWN, CHAPTER and SUBCHAPTER score nothing and keep their order; the diagram
    // scores both rewards.
    assert_eq!(
        sorted.0,
        vec![
            KnownObject::UNKNOWN,
            KnownObject::CHAPTER,
            KnownObject::SUBCHAPTER,
            KnownObject::DIAGRAM
        ]
    );

    let reversed = KnownObjectList::from_vec(vec![
        KnownObject::DIAGRAM,
        KnownObject::CHAPTER,
        KnownObject::UNKNOWN,
    ])
    .sort_by_soft_constraints(&ctx, Page(2))
    .unwrap();
    assert_eq!(
        reversed.0,
        vec![KnownObject::CHAPTER, KnownObject::UNKNOWN, KnownObject::DIAGRAM]
    );
}

#[test]
fn filter_out_drops_failures_and_repeats() {
    let list = KnownObjectList::from_vec(vec![
        KnownObject::DIAGRAM,
        KnownObject::CHAPTER,
        KnownObject::DIAGRAM,
        KnownObject::UNKNOWN,
        KnownObject::DATATABLE,
    ]);
    let out = list.filter_out(&vec![KnownObject::UNKNOWN]);
    assert_eq!(
        out.0,
        vec![KnownObject::DIAGRAM, KnownObject::CHAPTER, KnownObject::DATATABLE]
    );
}

#[test]
fn repeated_candidates_score_once() {
    let mut ctx = Context::new(Page(0), Page(9));
    decide(&mut ctx, 0, KnownObject::CHAPTER);
    decide(&mut ctx, 1, KnownObject::SUBCHAPTER);
    // The first DIAGRAM entry collects the scores of both DIAGRAM entries; the second holds
    // none and sorts with the unscored SUBCHAPTER, after it.
    let sorted = KnownObjectList::from_vec(vec![
        KnownObject::DIAGRAM,
        KnownObject::SUBCHAPTER,
        KnownObject::DIAGRAM,
    ])
    .sort_by_soft_constraints(&ctx, Page(2))
    .unwrap();
    assert_eq!(
        sorted.0,
        vec![KnownObject::SUBCHAPTER, KnownObject::DIAGRAM, KnownObject::DIAGRAM]
    );
}

#[test]
fn a_class_failing_a_hard_constraint_is_not_inferred() {
    let mut ctx = Context::new(Page(0), Page(9));
    let mut inferencer = Inferencer::new();
    decide(&mut ctx, 0, KnownObject::CHAPTER);
    // A datatable cannot follow a chapter: it is the only candidate, yet out of the race.
    let winner = inferencer
        .infer(&mut ctx, Page(1), &KnownObjectList::from_vec(vec![KnownObject::DATATABLE]))
        .unwrap();
    assert_eq!(winner, KnownObject::UNKNOWN);
}

#[test]
fn a_lone_passing_candidate_is_inferred() {
    let mut ctx = Context::new(Page(0), Page(9));
    let mut inferencer = Inferencer::new();
    decide(&mut ctx, 0, KnownObject::CHAPTER);
    let winner = inferencer
        .infer(&mut ctx, Page(1), &KnownObjectList::from_vec(vec![KnownObject::SUBCHAPTER]))
        .unwrap();
    assert_eq!(winner, KnownObject::SUBCHAPTER);
}

#[test]
fn the_hard_stage_twice_removes_nothing_more() {
    let mut ctx = Context::new(Page(0), Page(9));
    decide(&mut ctx, 0, KnownObject::CHAPTER);
    ctx.guarantee_failure_of(KnownObject::SUBCHAPTER, Page(1));
    let once = KnownObjectList::new()
        .filter_by_hard_constraints(&ctx, Page(1))
        .unwrap();
    let copy = KnownObjectList::from_vec(once.0.clone());
    let twice = copy.filter_by_hard_constraints(&ctx, Page(1)).unwrap();
    assert_eq!(
        once.0,
        vec![KnownObject::UNKNOWN, KnownObject::CHAPTER, KnownObject::DIAGRAM]
    );
    assert_eq!(twice.0, once.0);
}

#[test]
fn decisions_read_back_after_later_decisions() {
    let mut ctx = Context::new(Page(0), Page(9));
    decide(&mut ctx, 0, KnownObject::CHAPTER);
    decide(&mut ctx, 1, KnownObject::SUBCHAPTER);
    decide(&mut ctx, 2, KnownObject::DIAGRAM);
    decide(&mut ctx, 1, KnownObject::DATATABLE);
    decide(&mut ctx, 3, KnownObject::DATATABLE);
    assert_eq!(ctx.get_decision(Page(0)), Some(&KnownObject::CHAPTER));
    assert_eq!(ctx.get_decision(Page(1)), Some(&KnownObject::DATATABLE));
    assert_eq!(ctx.get_decision(Page(2)), Some(&KnownObject::DIAGRAM));
    assert_eq!(ctx.get_decision(Page(7)), None);
}
