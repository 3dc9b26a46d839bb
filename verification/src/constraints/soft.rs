use vstd::prelude::*;
use crate::constraints::{CastError, Constraint};
use crate::context::Context;
use crate::page::Page;
use crate::schema::{KnownObject, is_child, spec_dependents, spec_is_child};
use crate::score::Score;

verus! {

/// A constraint that scores a candidate rather than deciding on it.
pub trait SoftConstraint: Constraint {
    /// Whether evaluating the constraint is defined (it reads no missing decision).
    spec fn spec_defined(ctx: &Context, class: KnownObject, page: Page) -> bool;

    /// The score the constraint gives `class` on `page`.
    spec fn spec_score(ctx: &Context, class: KnownObject, page: Page) -> Score;

    fn eval(ctx: &Context, class: KnownObject, page: Page) -> (r: Score)
        requires
            Self::spec_defined(ctx, class, page),
        ensures
            r == Self::spec_score(ctx, class, page),
    ;
}

/// Rewards a candidate that sits directly under the current parent.
pub struct NaturalChild;

impl Constraint for NaturalChild {}

impl SoftConstraint for NaturalChild {
    open spec fn spec_defined(ctx: &Context, class: KnownObject, page: Page) -> bool {
        true
    }

    open spec fn spec_score(ctx: &Context, class: KnownObject, page: Page) -> Score {
        if spec_is_child(ctx.current_parent, class) {
            Score::REWARD_Light
        } else {
            Score::Neutral
        }
    }

    fn eval(ctx: &Context, class: KnownObject, page: Page) -> (r: Score) {
        if is_child(ctx.current_parent, class) {
            Score::REWARD_Light
        } else {
            Score::Neutral
        }
    }
}

/// Rewards a candidate that has a pair when it is the first of its pair and the previous
/// page ended a pair or has no pair itself.
pub struct FirstInPairConstraint;

impl Constraint for FirstInPairConstraint {}

impl SoftConstraint for FirstInPairConstraint {
    open spec fn spec_defined(ctx: &Context, class: KnownObject, page: Page) -> bool {
        class.spec_has_pair() ==> ctx.can_look_back(page)
    }

    open spec fn spec_score(ctx: &Context, class: KnownObject, page: Page) -> Score {
        if !class.spec_has_pair() {
            Score::Neutral
        } else if (ctx.spec_previous(page).spec_is_second_in_pair() || !ctx.spec_previous(
            page,
        ).spec_has_pair()) && class.spec_is_first_in_pair() {
            Score::REWARD_Heavy
        } else {
            Score::Neutral
        }
    }

    fn eval(ctx: &Context, class: KnownObject, page: Page) -> (r: Score) {
        if !class.has_pair() {
            return Score::Neutral;
        }
        let prev_classification = ctx.previous_page_inference(page);
        let valid_prev_classification = prev_classification.is_second_in_pair()
            || !prev_classification.has_pair();
        if valid_prev_classification && class.is_first_in_pair() {
            return Score::REWARD_Heavy;
        }
        Score::Neutral
    }
}

/// The number of soft constraints.
pub const ENUM_VARIANT_COUNT: usize = 2;

/// The soft constraints, in the order the pipeline applies them.
#[allow(non_camel_case_types)]
#[derive(PartialEq, Eq, Structural, Clone, Copy, Debug, Hash)]
pub enum SoftConstraints {
    REWARD_IsNaturalChild,
    REWARD_FirstInPair,
}

/// The soft constraint with the given discriminant.
pub open spec fn spec_soft_of(i: int) -> SoftConstraints {
    if i == 0 {
        SoftConstraints::REWARD_IsNaturalChild
    } else {
        SoftConstraints::REWARD_FirstInPair
    }
}

/// The name of a soft constraint.
pub open spec fn spec_soft_name(c: SoftConstraints) -> Seq<char> {
    match c {
        SoftConstraints::REWARD_IsNaturalChild => "REWARD_IsNaturalChild"@,
        SoftConstraints::REWARD_FirstInPair => "REWARD_FirstInPair"@,
    }
}

impl SoftConstraints {
    /// Whether evaluating this constraint is defined.
    pub open spec fn spec_defined(self, ctx: &Context, class: KnownObject, page: Page) -> bool {
        match self {
            SoftConstraints::REWARD_IsNaturalChild => NaturalChild::spec_defined(ctx, class, page),
            SoftConstraints::REWARD_FirstInPair => FirstInPairConstraint::spec_defined(
                ctx,
                class,
                page,
            ),
        }
    }

    /// The score this constraint gives `class` on `page`.
    pub open spec fn spec_score(self, ctx: &Context, class: KnownObject, page: Page) -> Score {
        match self {
            SoftConstraints::REWARD_IsNaturalChild => NaturalChild::spec_score(ctx, class, page),
            SoftConstraints::REWARD_FirstInPair => FirstInPairConstraint::spec_score(
                ctx,
                class,
                page,
            ),
        }
    }

    /// Evaluates this constraint for `class` on `page`.
    pub fn eval(&self, ctx: &Context, class: KnownObject, page: Page) -> (r: Score)
        requires
            self.spec_defined(ctx, class, page),
        ensures
            r == self.spec_score(ctx, class, page),
    {
        match self {
            SoftConstraints::REWARD_IsNaturalChild => NaturalChild::eval(ctx, class, page),
            SoftConstraints::REWARD_FirstInPair => FirstInPairConstraint::eval(ctx, class, page),
        }
    }

    /// The constraint with discriminant `v`, or an error when `v` names none.
    pub fn try_from_usize(v: usize) -> (r: Result<Self, CastError>)
        ensures
            v < ENUM_VARIANT_COUNT ==> r == Ok::<Self, CastError>(spec_soft_of(v as int)),
            v >= ENUM_VARIANT_COUNT ==> r == Err::<Self, CastError>(
                CastError::ConstraintCastError(v),
            ),
    {
        if v == 0 {
            Ok(SoftConstraints::REWARD_IsNaturalChild)
        } else if v == 1 {
            Ok(SoftConstraints::REWARD_FirstInPair)
        } else {
            Err(CastError::ConstraintCastError(v))
        }
    }

    /// The name of this constraint.
    pub fn name(&self) -> (r: &'static str)
        ensures
            r@ == spec_soft_name(*self),
    {
        match self {
            SoftConstraints::REWARD_IsNaturalChild => "REWARD_IsNaturalChild",
            SoftConstraints::REWARD_FirstInPair => "REWARD_FirstInPair",
        }
    }
}

/// The first-in-pair reward goes only to the first of a pair, and to it exactly when the
/// previous page ended a pair or has no pair; it never penalises and gives nothing else.
pub proof fn lemma_first_in_pair_reward(ctx: &Context, class: KnownObject, page: Page)
    ensures
        !class.spec_is_first_in_pair() ==> SoftConstraints::REWARD_FirstInPair.spec_score(
            ctx,
            class,
            page,
        ) == Score::Neutral,
        class.spec_is_first_in_pair() ==> (SoftConstraints::REWARD_FirstInPair.spec_score(
            ctx,
            class,
            page,
        ) == Score::REWARD_Heavy <==> (ctx.spec_previous(page).spec_is_second_in_pair()
            || !ctx.spec_previous(page).spec_has_pair())),
        SoftConstraints::REWARD_FirstInPair.spec_score(ctx, class, page) == Score::Neutral
            || SoftConstraints::REWARD_FirstInPair.spec_score(ctx, class, page)
            == Score::REWARD_Heavy,
{
}

/// The natural-child reward goes exactly to the classes listed as dependents of the current
/// parent, and gives nothing to any other class.
pub proof fn lemma_natural_child_reward(ctx: &Context, class: KnownObject, page: Page)
    ensures
        spec_dependents(ctx.current_parent).contains(class) ==> SoftConstraints::REWARD_IsNaturalChild.spec_score(
            ctx,
            class,
            page,
        ) == Score::REWARD_Light,
        !spec_dependents(ctx.current_parent).contains(class) ==> SoftConstraints::REWARD_IsNaturalChild.spec_score(
            ctx,
            class,
            page,
        ) == Score::Neutral,
{
}

} // verus!
