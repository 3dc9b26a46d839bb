use vstd::prelude::*;
use crate::constraints::{CastError, Constraint};
use crate::context::Context;
use crate::page::Page;
use crate::schema::KnownObject;

verus! {

/// A constraint that removes a candidate from the race on a page when it fails.
pub trait HardConstraint: Constraint {
    /// Whether evaluating the constraint is defined (it reads no missing decision).
    spec fn spec_defined(ctx: &Context, class: KnownObject, page: Page) -> bool;

    /// Whether `class` may still be the object type of `page`.
    spec fn spec_passes(ctx: &Context, class: KnownObject, page: Page) -> bool;

    fn eval(ctx: &Context, class: KnownObject, page: Page) -> (r: bool)
        requires
            Self::spec_defined(ctx, class, page),
        ensures
            r == Self::spec_passes(ctx, class, page),
    ;
}

/// Removes the second of a pair when the previous page was not the first of a pair.
pub struct IllegalSecondInPair;

impl Constraint for IllegalSecondInPair {}

impl HardConstraint for IllegalSecondInPair {
    open spec fn spec_defined(ctx: &Context, class: KnownObject, page: Page) -> bool {
        ctx.can_look_back(page)
    }

    open spec fn spec_passes(ctx: &Context, class: KnownObject, page: Page) -> bool {
        !(!ctx.spec_previous(page).spec_is_first_in_pair() && class.spec_is_second_in_pair())
    }

    fn eval(ctx: &Context, class: KnownObject, page: Page) -> (r: bool) {
        let prev_classification = ctx.previous_page_inference(page);
        if !prev_classification.is_first_in_pair() && class.is_second_in_pair() {
            return false;
        }
        true
    }
}

/// The number of hard constraints.
pub const ENUM_VARIANT_COUNT: usize = 1;

/// The hard constraints, in the order the pipeline applies them.
#[allow(non_camel_case_types)]
#[derive(PartialEq, Eq, Structural, Clone, Copy, Debug, Hash)]
pub enum HardConstraints {
    IllegalSecondInPair,
}

/// The name of a hard constraint.
pub open spec fn spec_hard_name(c: HardConstraints) -> Seq<char> {
    match c {
        HardConstraints::IllegalSecondInPair => "IllegalSecondInPair"@,
    }
}

impl HardConstraints {
    /// Whether evaluating this constraint is defined.
    pub open spec fn spec_defined(self, ctx: &Context, class: KnownObject, page: Page) -> bool {
        match self {
            HardConstraints::IllegalSecondInPair => IllegalSecondInPair::spec_defined(
                ctx,
                class,
                page,
            ),
        }
    }

    /// Whether `class` passes this constraint on `page`.
    pub open spec fn spec_passes(self, ctx: &Context, class: KnownObject, page: Page) -> bool {
        match self {
            HardConstraints::IllegalSecondInPair => IllegalSecondInPair::spec_passes(
                ctx,
                class,
                page,
            ),
        }
    }

    /// Evaluates this constraint for `class` on `page`.
    pub fn eval(&self, ctx: &Context, class: KnownObject, page: Page) -> (r: bool)
        requires
            self.spec_defined(ctx, class, page),
        ensures
            r == self.spec_passes(ctx, class, page),
    {
        match self {
            HardConstraints::IllegalSecondInPair => IllegalSecondInPair::eval(ctx, class, page),
        }
    }

    /// The constraint with discriminant `v`, or an error when `v` names none.
    pub fn try_from_usize(v: usize) -> (r: Result<Self, CastError>)
        ensures
            v < ENUM_VARIANT_COUNT ==> r == Ok::<Self, CastError>(
                HardConstraints::IllegalSecondInPair,
            ),
            v >= ENUM_VARIANT_COUNT ==> r == Err::<Self, CastError>(
                CastError::ConstraintCastError(v),
            ),
    {
        if v == 0 {
            Ok(HardConstraints::IllegalSecondInPair)
        } else {
            Err(CastError::ConstraintCastError(v))
        }
    }

    /// The name of this constraint.
    pub fn name(&self) -> (r: &'static str)
        ensures
            r@ == spec_hard_name(*self),
    {
        match self {
            HardConstraints::IllegalSecondInPair => "IllegalSecondInPair",
        }
    }
}

} // verus!
