use vstd::prelude::*;
use crate::constraints::{CastError, Constraint};
use crate::context::Context;
use crate::page::Page;
use crate::schema::{KnownObject, root_object, spec_root};

verus! {

/// A constraint that, when it holds for a candidate, makes that candidate the winner.
pub trait DefinitiveConstraint: Constraint {
    /// Whether evaluating the constraint is defined (it reads no missing decision).
    spec fn spec_defined(ctx: &Context, class: KnownObject, page: Page) -> bool;

    /// Whether the constraint holds for `class` on `page`.
    spec fn spec_holds(ctx: &Context, class: KnownObject, page: Page) -> bool;

    fn eval(ctx: &Context, class: KnownObject, page: Page) -> (r: bool)
        requires
            Self::spec_defined(ctx, class, page),
        ensures
            r == Self::spec_holds(ctx, class, page),
    ;
}

/// The first page of the document is the schema's root.
#[derive(PartialEq, Eq, Structural, Clone, Copy, Debug, Hash)]
pub struct FirstPageRoot;

impl Constraint for FirstPageRoot {}

impl DefinitiveConstraint for FirstPageRoot {
    open spec fn spec_defined(ctx: &Context, class: KnownObject, page: Page) -> bool {
        true
    }

    open spec fn spec_holds(ctx: &Context, class: KnownObject, page: Page) -> bool {
        ctx.spec_is_first_page(page) && class == spec_root()
    }

    fn eval(ctx: &Context, class: KnownObject, page: Page) -> (r: bool) {
        ctx.is_first_page(page) && class == root_object()
    }
}

/// A page right after the first of a pair is the second of the pair.
#[derive(PartialEq, Eq, Structural, Clone, Copy, Debug, Hash)]
pub struct SecondInPair;

impl Constraint for SecondInPair {}

impl DefinitiveConstraint for SecondInPair {
    open spec fn spec_defined(ctx: &Context, class: KnownObject, page: Page) -> bool {
        ctx.can_look_back(page)
    }

    open spec fn spec_holds(ctx: &Context, class: KnownObject, page: Page) -> bool {
        ctx.spec_previous(page).spec_is_first_in_pair() && class.spec_is_second_in_pair()
    }

    fn eval(ctx: &Context, class: KnownObject, page: Page) -> (r: bool) {
        ctx.previous_page_inference(page).is_first_in_pair() && class.is_second_in_pair()
    }
}

/// The number of definitive constraints.
pub const ENUM_VARIANT_COUNT: usize = 2;

/// The definitive constraints, in the order the pipeline tries them.
#[allow(non_camel_case_types)]
#[derive(PartialEq, Eq, Structural, Clone, Copy, Debug, Hash)]
pub enum DefinitiveConstraints {
    FirstPageRoot,
    SecondInPair,
}

/// The definitive constraint with the given discriminant.
pub open spec fn spec_definitive_of(i: int) -> DefinitiveConstraints {
    if i == 0 {
        DefinitiveConstraints::FirstPageRoot
    } else {
        DefinitiveConstraints::SecondInPair
    }
}

/// The name of a definitive constraint.
pub open spec fn spec_definitive_name(c: DefinitiveConstraints) -> Seq<char> {
    match c {
        DefinitiveConstraints::FirstPageRoot => "FirstPageRoot"@,
        DefinitiveConstraints::SecondInPair => "SecondInPair"@,
    }
}

impl DefinitiveConstraints {
    /// Whether evaluating this constraint is defined.
    pub open spec fn spec_defined(self, ctx: &Context, class: KnownObject, page: Page) -> bool {
        match self {
            DefinitiveConstraints::FirstPageRoot => FirstPageRoot::spec_defined(ctx, class, page),
            DefinitiveConstraints::SecondInPair => SecondInPair::spec_defined(ctx, class, page),
        }
    }

    /// Whether this constraint holds for `class` on `page`.
    pub open spec fn spec_holds(self, ctx: &Context, class: KnownObject, page: Page) -> bool {
        match self {
            DefinitiveConstraints::FirstPageRoot => FirstPageRoot::spec_holds(ctx, class, page),
            DefinitiveConstraints::SecondInPair => SecondInPair::spec_holds(ctx, class, page),
        }
    }

    /// Evaluates this constraint for `class` on `page`.
    pub fn eval(&self, ctx: &Context, class: KnownObject, page: Page) -> (r: bool)
        requires
            self.spec_defined(ctx, class, page),
        ensures
            r == self.spec_holds(ctx, class, page),
    {
        match self {
            DefinitiveConstraints::FirstPageRoot => FirstPageRoot::eval(ctx, class, page),
            DefinitiveConstraints::SecondInPair => SecondInPair::eval(ctx, class, page),
        }
    }

    /// The constraint with discriminant `v`, or an error when `v` names none.
    pub fn try_from_usize(v: usize) -> (r: Result<Self, CastError>)
        ensures
            v < ENUM_VARIANT_COUNT ==> r == Ok::<Self, CastError>(spec_definitive_of(v as int)),
            v >= ENUM_VARIANT_COUNT ==> r == Err::<Self, CastError>(
                CastError::ConstraintCastError(v),
            ),
    {
        if v == 0 {
            Ok(DefinitiveConstraints::FirstPageRoot)
        } else if v == 1 {
            Ok(DefinitiveConstraints::SecondInPair)
        } else {
            Err(CastError::ConstraintCastError(v))
        }
    }

    /// The name of this constraint.
    pub fn name(&self) -> (r: &'static str)
        ensures
            r@ == spec_definitive_name(*self),
    {
        match self {
            DefinitiveConstraints::FirstPageRoot => "FirstPageRoot",
            DefinitiveConstraints::SecondInPair => "SecondInPair",
        }
    }
}

/// The first-page constraint holds for the chapter on the first page and for nothing else;
/// the second-in-pair constraint holds for the second of a pair right after a page decided as
/// the first of a pair and for nothing else.
pub proof fn lemma_definitive_holds(ctx: &Context, class: KnownObject, page: Page)
    ensures
        DefinitiveConstraints::FirstPageRoot.spec_holds(ctx, class, page) <==> (page
            == ctx.start_page && class == KnownObject::CHAPTER),
        DefinitiveConstraints::SecondInPair.spec_holds(ctx, class, page) <==> (class
            == KnownObject::DATATABLE && ctx.spec_previous(page) == KnownObject::DIAGRAM),
{
}

} // verus!
