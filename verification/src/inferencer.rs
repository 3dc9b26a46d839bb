use vstd::prelude::*;
use crate::constraints::CastError;
use crate::constraints::SoftConstraints;
use crate::context::ContextError;
use crate::context::Context;
use crate::obj_list::{
    KnownObjectList, copy_list, spec_after_hard, spec_best_index,
    spec_definitive_defined, spec_hard_defined, spec_soft_keys, spec_soft_stage_defined,
    spec_without_failed, lemma_stable_sort_last, lemma_best_index, lemma_first_holding_member,
    lemma_without_failed_members, lemma_keep_passing_subset, lemma_keep_passing_passes,
    spec_definitive_pick, lemma_first_holding_holds, lemma_hard_stage_members,
    spec_first_holding,
};
use crate::constraints::definitive::DefinitiveConstraints;
use crate::constraints::hard::HardConstraints;
use crate::schema::spec_root;
use crate::page::Page;
use crate::schema::{KnownObject, ObjectCastError};

verus! {

/// A failure of the inference pipeline.
#[derive(Debug, Clone, Copy, PartialEq, Eq)]
pub enum InferenceError {
    ClassCastError(ObjectCastError),
    ConstraintCastError(CastError),
    /// A class was scored by a soft constraint but had no entry to hold the score.
    ScoreMapMissingConstraint(KnownObject, SoftConstraints),
    ContextError(ContextError),
}

/// The result of a step of the inference pipeline.
pub type InferenceResult<T> = Result<T, InferenceError>;

/// The candidates the soft stage ranks: those that pass every hard constraint, without the
/// candidates `page` is known not to be.
pub open spec fn spec_ranked(ctx: &Context, page: Page, candidates: Seq<KnownObject>) -> Seq<
    KnownObject,
> {
    spec_without_failed(ctx, page, spec_after_hard(ctx, page, candidates))
}

/// The object type inferred for `page` among `candidates`: the winner the definitive
/// constraints name among the candidates not known to fail, if any; else the best scored
/// candidate that passes every hard constraint (the last one among equals); else `UNKNOWN`.
pub open spec fn spec_infer(ctx: &Context, page: Page, candidates: Seq<KnownObject>) -> KnownObject {
    match spec_definitive_pick(ctx, page, spec_without_failed(ctx, page, candidates)) {
        Some(w) => w,
        None => {
            let s = spec_ranked(ctx, page, candidates);
            if s.len() == 0 {
                KnownObject::UNKNOWN
            } else {
                s[spec_best_index(spec_soft_keys(ctx, page, s))]
            }
        },
    }
}

/// Whether inferring `page` among `candidates` reads no missing decision.
pub open spec fn spec_infer_defined(ctx: &Context, page: Page, candidates: Seq<KnownObject>) -> bool {
    &&& spec_definitive_defined(ctx, page, candidates)
    &&& spec_definitive_pick(ctx, page, spec_without_failed(ctx, page, candidates)) is None ==> {
        &&& spec_hard_defined(ctx, page, candidates)
        &&& spec_ranked(ctx, page, candidates).len() > 1 ==> spec_soft_stage_defined(
            ctx,
            page,
            spec_ranked(ctx, page, candidates),
        )
    }
}

/// Infers the object type of pages from the decisions made so far.
#[derive(Clone, Copy, Debug)]
pub struct Inferencer;

impl Inferencer {
    pub fn new() -> (r: Self) {
        Inferencer
    }

    /// Names the object type of `page`: the winner of the definitive stage when it names
    /// one; otherwise the candidates that pass the hard stage are ranked by the soft stage
    /// and the best scored one wins.
    pub fn infer(
        &mut self,
        ctx: &mut Context,
        page: Page,
        candidates: &KnownObjectList,
    ) -> (r: InferenceResult<KnownObject>)
        requires
            spec_infer_defined(old(ctx), page, candidates.0@),
        ensures
            *final(ctx) == *old(ctx),
            r == Ok::<KnownObject, InferenceError>(spec_infer(old(ctx), page, candidates.0@)),
    {
        match candidates.definitive_winner(ctx, page) {
            Ok(Some(winner)) => {
                return Ok(winner);
            },
            Ok(None) => {},
            Err(e) => {
                return Err(e);
            },
        }
        let copied = KnownObjectList(copy_list(&candidates.0));
        let after_hard = match copied.filter_by_hard_constraints(ctx, page) {
            Ok(l) => l,
            Err(e) => {
                return Err(e);
            },
        };
        let sorted = match after_hard.sort_by_soft_constraints(ctx, page) {
            Ok(l) => l,
            Err(e) => {
                return Err(e);
            },
        };
        let n = sorted.0.len();
        if n == 0 {
            return Ok(KnownObject::UNKNOWN);
        }
        let winner = sorted.0[n - 1];
        proof {
            let s = spec_ranked(ctx, page, candidates.0@);
            if s.len() > 1 {
                let p = choose|p: Seq<int>| #[trigger] crate::obj_list::is_stable_sort(
                    s,
                    spec_soft_keys(ctx, page, s),
                    p,
                    sorted.0@,
                );
                lemma_stable_sort_last(s, spec_soft_keys(ctx, page, s), p, sorted.0@);
            }
        }
        Ok(winner)
    }
}

/// Inference names a candidate that the page is not known to fail as, unless it answers
/// `UNKNOWN`.
pub proof fn lemma_inference_respects_failures(
    ctx: &Context,
    page: Page,
    candidates: Seq<KnownObject>,
)
    ensures
        spec_infer(ctx, page, candidates) != KnownObject::UNKNOWN ==> {
            &&& candidates.contains(spec_infer(ctx, page, candidates))
            &&& ctx.guarantee_failures.view().contains_key(page.0)
                ==> !ctx.guarantee_failures.view()[page.0].contains(
                spec_infer(ctx, page, candidates),
            )
        },
{
    let l = spec_without_failed(ctx, page, candidates);
    lemma_without_failed_members(ctx, page, candidates);
    lemma_first_holding_member(ctx, page, DefinitiveConstraints::FirstPageRoot, l);
    lemma_first_holding_member(ctx, page, DefinitiveConstraints::SecondInPair, l);
    if spec_definitive_pick(ctx, page, l) is None {
        let h = spec_after_hard(ctx, page, candidates);
        let s = spec_ranked(ctx, page, candidates);
        lemma_keep_passing_subset(ctx, page, HardConstraints::IllegalSecondInPair, l);
        lemma_without_failed_members(ctx, page, h);
        if s.len() > 0 {
            lemma_best_index(spec_soft_keys(ctx, page, s));
            let b = spec_best_index(spec_soft_keys(ctx, page, s));
            assert(s.contains(s[b]));
            assert(h.contains(s[b]));
        }
    }
}

/// A class that fails a hard constraint on `page` is out of the race: without a definitive
/// winner, inference answers `UNKNOWN` or a candidate that passes every hard constraint and
/// scores at least as high as every other ranked candidate.
pub proof fn lemma_inference_respects_hard_constraints(
    ctx: &Context,
    page: Page,
    candidates: Seq<KnownObject>,
)
    ensures
        spec_definitive_pick(ctx, page, spec_without_failed(ctx, page, candidates)) is None
            && spec_infer(ctx, page, candidates) != KnownObject::UNKNOWN ==> {
            let s = spec_ranked(ctx, page, candidates);
            let keys = spec_soft_keys(ctx, page, s);
            &&& HardConstraints::IllegalSecondInPair.spec_passes(
                ctx,
                spec_infer(ctx, page, candidates),
                page,
            )
            &&& s.contains(spec_infer(ctx, page, candidates))
            &&& forall|j: int| 0 <= j < s.len() ==> #[trigger] keys[j] <= keys[spec_best_index(keys)]
        },
{
    let l = spec_without_failed(ctx, page, candidates);
    if spec_definitive_pick(ctx, page, l) is None {
        let h = spec_after_hard(ctx, page, candidates);
        let s = spec_ranked(ctx, page, candidates);
        lemma_keep_passing_passes(ctx, page, HardConstraints::IllegalSecondInPair, l);
        lemma_without_failed_members(ctx, page, h);
        if s.len() > 0 {
            lemma_best_index(spec_soft_keys(ctx, page, s));
            let b = spec_best_index(spec_soft_keys(ctx, page, s));
            assert(s.contains(s[b]));
            assert(h.contains(s[b]));
        }
    }
}

/// Inference answers the second of a pair only right after a page decided as the first of a
/// pair, whichever stage names it.
pub proof fn lemma_inferred_second_follows_first(
    ctx: &Context,
    page: Page,
    candidates: Seq<KnownObject>,
)
    requires
        spec_infer_defined(ctx, page, candidates),
    ensures
        spec_infer(ctx, page, candidates).spec_is_second_in_pair() ==> ctx.can_look_back(page)
            && ctx.spec_previous(page).spec_is_first_in_pair(),
{
    let l = spec_without_failed(ctx, page, candidates);
    let w = spec_infer(ctx, page, candidates);
    lemma_first_holding_holds(ctx, page, DefinitiveConstraints::FirstPageRoot, l);
    lemma_first_holding_holds(ctx, page, DefinitiveConstraints::SecondInPair, l);
    lemma_first_holding_member(ctx, page, DefinitiveConstraints::SecondInPair, l);
    if spec_definitive_pick(ctx, page, l) is None && w.spec_is_second_in_pair() {
        let h = spec_after_hard(ctx, page, candidates);
        let s = spec_ranked(ctx, page, candidates);
        lemma_without_failed_members(ctx, page, h);
        lemma_best_index(spec_soft_keys(ctx, page, s));
        let b = spec_best_index(spec_soft_keys(ctx, page, s));
        assert(s.contains(s[b]));
        assert(h.contains(w));
        lemma_hard_stage_members(ctx, page, candidates, w);
        lemma_keep_passing_subset(ctx, page, HardConstraints::IllegalSecondInPair, l);
    }
}

/// When a definitive constraint names a winner among the candidates not known to fail,
/// inference answers that winner.
pub proof fn lemma_definitive_winner_wins(
    ctx: &Context,
    page: Page,
    candidates: Seq<KnownObject>,
    winner: KnownObject,
)
    requires
        spec_definitive_pick(ctx, page, spec_without_failed(ctx, page, candidates)) == Some(
            winner,
        ),
    ensures
        spec_infer(ctx, page, candidates) == winner,
{
}

/// On the first page, inference answers the schema's root whenever the root is a candidate
/// the page is not known to fail as.
pub proof fn lemma_first_page_is_root(ctx: &Context, page: Page, candidates: Seq<KnownObject>)
    requires
        ctx.spec_is_first_page(page),
        spec_without_failed(ctx, page, candidates).contains(spec_root()),
    ensures
        spec_infer(ctx, page, candidates) == spec_root(),
{
    let l = spec_without_failed(ctx, page, candidates);
    lemma_first_holding_root(ctx, page, l);
    lemma_first_holding_member(ctx, page, DefinitiveConstraints::FirstPageRoot, l);
}

/// Inference is defined on every page that can look back at the page before it.
pub proof fn lemma_look_back_defines_infer(ctx: &Context, page: Page, candidates: Seq<KnownObject>)
    requires
        ctx.can_look_back(page),
    ensures
        spec_infer_defined(ctx, page, candidates),
{
}

/// Inference is defined on the first page whenever the root is a candidate the page is
/// not known to fail as.
pub proof fn lemma_first_page_definitive(ctx: &Context, page: Page, candidates: Seq<KnownObject>)
    requires
        ctx.spec_is_first_page(page),
        spec_without_failed(ctx, page, candidates).contains(spec_root()),
    ensures
        spec_infer_defined(ctx, page, candidates),
{
    lemma_first_holding_root(ctx, page, spec_without_failed(ctx, page, candidates));
}

/// On the first page, the first page constraint holds for the root and for nothing else.
proof fn lemma_first_holding_root(ctx: &Context, page: Page, s: Seq<KnownObject>)
    requires
        ctx.spec_is_first_page(page),
    ensures
        s.contains(spec_root()) ==> spec_first_holding(
            ctx,
            page,
            DefinitiveConstraints::FirstPageRoot,
            s,
        ) == Some(spec_root()),
    decreases s.len(),
{
    if s.len() > 0 {
        lemma_first_holding_root(ctx, page, s.drop_last());
        if s.contains(spec_root()) && !s.drop_last().contains(spec_root()) {
            let j = choose|j: int| 0 <= j < s.len() && s[j] == spec_root();
            if j < s.len() - 1 {
                assert(s.drop_last()[j] == spec_root());
            }
            lemma_first_holding_none(ctx, page, s.drop_last());
        }
        if s.drop_last().contains(spec_root()) {
            let j = choose|j: int| 0 <= j < s.drop_last().len() && s.drop_last()[j] == spec_root();
            assert(s[j] == spec_root());
        }
    }
}

/// On the first page, the first page constraint holds for no candidate of a list without
/// the root.
proof fn lemma_first_holding_none(ctx: &Context, page: Page, s: Seq<KnownObject>)
    requires
        !s.contains(spec_root()),
    ensures
        spec_first_holding(ctx, page, DefinitiveConstraints::FirstPageRoot, s) is None,
    decreases s.len(),
{
    if s.len() > 0 {
        assert forall|j: int| 0 <= j < s.drop_last().len() implies s.drop_last()[j] != spec_root() by {
            assert(s[j] == s.drop_last()[j]);
        }
        lemma_first_holding_none(ctx, page, s.drop_last());
        assert(s[s.len() - 1] != spec_root());
    }
}

} // verus!
