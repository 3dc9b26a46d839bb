use vstd::prelude::*;
use crate::context::Context;
use crate::page::Page;
use crate::schema::{KnownObject, is_child, is_pair, spec_dependents, spec_is_child};
use crate::score::Score;

verus! {

/// Marks a type as a weighting constraint.
pub trait Constraint {}

/// A discriminant that names no weighting constraint.
#[derive(Debug, Clone, Copy, PartialEq, Eq, Structural)]
pub enum CastError {
    ConstraintCastError(u8),
}

/// A weighting constraint that rules a candidate out.
pub trait HardConstraint: Constraint {
    /// Whether evaluating the constraint is defined (it reads no missing decision).
    spec fn spec_defined(ctx: &Context, class: KnownObject, page: Page) -> bool;

    /// Whether `class` may still be the object type of `page`.
    spec fn spec_passes(ctx: &Context, class: KnownObject, page: Page) -> bool;

    fn eval(ctx: &Context, class: KnownObject, page: Page) -> (r: bool)
        requires
            Self::spec_defined(ctx, class, page),
        ensures
            r == Self::spec_passes(ctx, class, page),
    ;
}

/// A weighting constraint that scores a candidate.
pub trait SoftConstraint: Constraint {
    /// Whether evaluating the constraint is defined (it reads no missing decision).
    spec fn spec_defined(ctx: &Context, class: KnownObject, page: Page) -> bool;

    /// The score the constraint gives `class` on `page`.
    spec fn spec_score(ctx: &Context, class: KnownObject, page: Page) -> Score;

    fn eval(ctx: &Context, class: KnownObject, page: Page) -> (r: Score)
        requires
            Self::spec_defined(ctx, class, page),
        ensures
            r == Self::spec_score(ctx, class, page),
    ;
}

/// Marks a soft weighting constraint whose scores count against a candidate.
pub trait Penalty: SoftConstraint {}

/// Passes a candidate only when it completes a pair opened on the page before.
pub struct ValidPairRule;

impl Constraint for ValidPairRule {}

impl HardConstraint for ValidPairRule {
    open spec fn spec_defined(ctx: &Context, class: KnownObject, page: Page) -> bool {
        ctx.can_look_back(page)
    }

    open spec fn spec_passes(ctx: &Context, class: KnownObject, page: Page) -> bool {
        ctx.spec_previous(page).spec_is_first_in_pair() && class.spec_is_second_in_pair()
    }

    fn eval(ctx: &Context, class: KnownObject, page: Page) -> (r: bool) {
        is_pair(*ctx.previous_page_inference(page), class)
    }
}

/// Punishes a candidate that does not sit directly under the page before it.
pub struct SkippedChildrenConstraint;

impl Constraint for SkippedChildrenConstraint {}

impl Penalty for SkippedChildrenConstraint {}

impl SoftConstraint for SkippedChildrenConstraint {
    open spec fn spec_defined(ctx: &Context, class: KnownObject, page: Page) -> bool {
        ctx.can_look_back(page)
    }

    open spec fn spec_score(ctx: &Context, class: KnownObject, page: Page) -> Score {
        if !spec_is_child(ctx.spec_previous(page), class) {
            Score::PUNISHMENT_Heavy
        } else {
            Score::Neutral
        }
    }

    fn eval(ctx: &Context, class: KnownObject, page: Page) -> (r: Score) {
        let prev_inference = ctx.previous_page_inference(page);
        if !is_child(*prev_inference, class) {
            Score::PUNISHMENT_Heavy
        } else {
            Score::Neutral
        }
    }
}

/// The valid-pair rule passes exactly a datatable right after a page decided as a diagram;
/// the skipped-children penalty falls exactly on a class that is not a dependent of the
/// previous page's class.
pub proof fn lemma_weighting_rules(ctx: &Context, class: KnownObject, page: Page)
    ensures
        ValidPairRule::spec_passes(ctx, class, page) <==> (ctx.spec_previous(page)
            == KnownObject::DIAGRAM && class == KnownObject::DATATABLE),
        !spec_dependents(ctx.spec_previous(page)).contains(class)
            ==> SkippedChildrenConstraint::spec_score(ctx, class, page) == Score::PUNISHMENT_Heavy,
        spec_dependents(ctx.spec_previous(page)).contains(class)
            ==> SkippedChildrenConstraint::spec_score(ctx, class, page) == Score::Neutral,
{
}

} // verus!
