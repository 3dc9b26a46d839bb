use vstd::prelude::*;
use crate::constraints::Constraint;
use crate::context::Context;
use crate::page::Page;
use crate::schema::KnownObject;

verus! {

/// What an override does in place of the inference.
#[derive(Debug, Clone, Copy, PartialEq, Eq, Structural)]
pub enum OverrideAction {
    /// Decide the page as `UNKNOWN` without classifying it.
    Skip,
    /// Decide the page as the class and have it classified.
    InferAs(KnownObject),
    /// Decide the page as the class and have its content extracted.
    ClassifyAs(KnownObject),
}

/// When an override stream ends.
#[derive(Debug, Clone, Copy, PartialEq, Eq, Structural)]
pub enum OverrideStreamExitCase {
    /// Once the current page classifies as the class.
    IfClassifiedAs(KnownObject),
    /// Right away.
    Exit,
}

/// A rule that may replace the inference on a page.
pub trait Override: Constraint {
    /// Whether evaluating the override is defined (it reads no missing decision).
    spec fn spec_defined(&self, ctx: &Context, class: KnownObject, page: Page) -> bool;

    /// The action the override takes for `class` on `page`, if any.
    spec fn spec_action(&self, ctx: &Context, class: KnownObject, page: Page) -> Option<
        OverrideAction,
    >;

    fn eval(&self, ctx: &Context, class: KnownObject, page: Page) -> (r: Option<OverrideAction>)
        requires
            self.spec_defined(ctx, class, page),
        ensures
            r == self.spec_action(ctx, class, page),
    ;
}

/// Skips the page right after a page of the configured type.
#[derive(Debug, Clone, Copy, PartialEq, Eq, Structural, Hash)]
pub struct BlankAfter {
    pub config: KnownObject,
}

impl Constraint for BlankAfter {}

impl Override for BlankAfter {
    open spec fn spec_defined(&self, ctx: &Context, class: KnownObject, page: Page) -> bool {
        page != ctx.start_page ==> ctx.can_look_back(page)
    }

    open spec fn spec_action(&self, ctx: &Context, class: KnownObject, page: Page) -> Option<
        OverrideAction,
    > {
        if page == ctx.start_page {
            None
        } else if ctx.spec_previous(page) == self.config {
            Some(OverrideAction::Skip)
        } else {
            None
        }
    }

    fn eval(&self, ctx: &Context, _class: KnownObject, page: Page) -> (r: Option<OverrideAction>) {
        if page == ctx.start_page {
            return None;
        }
        if *ctx.previous_page_inference(page) == self.config {
            return Some(OverrideAction::Skip);
        }
        None
    }
}

/// The number of override kinds.
pub const ENUM_VARIANT_COUNT: usize = 1;

/// The overrides, each carrying its configuration.
#[allow(non_camel_case_types)]
#[derive(PartialEq, Eq, Structural, Clone, Copy, Debug, Hash)]
pub enum OverrideConstraints {
    BlankAfter(BlankAfter),
}

/// The name of an override kind.
pub open spec fn spec_override_name(c: OverrideConstraints) -> Seq<char> {
    match c {
        OverrideConstraints::BlankAfter(_) => "BlankAfter"@,
    }
}

impl OverrideConstraints {
    /// Whether evaluating this override is defined.
    pub open spec fn spec_defined(self, ctx: &Context, class: KnownObject, page: Page) -> bool {
        match self {
            OverrideConstraints::BlankAfter(s) => s.spec_defined(ctx, class, page),
        }
    }

    /// The action this override takes for `class` on `page`, if any.
    pub open spec fn spec_action(self, ctx: &Context, class: KnownObject, page: Page) -> Option<
        OverrideAction,
    > {
        match self {
            OverrideConstraints::BlankAfter(s) => s.spec_action(ctx, class, page),
        }
    }

    /// Evaluates this override for `class` on `page`.
    pub fn eval(&self, ctx: &Context, class: KnownObject, page: Page) -> (r: Option<
        OverrideAction,
    >)
        requires
            self.spec_defined(ctx, class, page),
        ensures
            r == self.spec_action(ctx, class, page),
    {
        match self {
            OverrideConstraints::BlankAfter(s) => s.eval(ctx, class, page),
        }
    }

    /// The name of this override kind.
    pub fn name(&self) -> (r: &'static str)
        ensures
            r@ == spec_override_name(*self),
    {
        match self {
            OverrideConstraints::BlankAfter(_) => "BlankAfter",
        }
    }
}

/// A rule that, once entered, classifies a run of pages by a fixed pattern until it exits.
pub trait OverrideStream: Constraint + Sized {
    /// The action the next step takes.
    spec fn spec_step_action(&self) -> OverrideAction;

    /// Whether the next step is defined.
    spec fn spec_can_step(&self) -> bool;

    /// Whether evaluating the entry condition is defined.
    spec fn spec_enter_defined(&self, ctx: &Context, page: Page) -> bool;

    /// Whether the stream takes over on `page`.
    spec fn spec_should_enter(&self, ctx: &Context, page: Page) -> bool;

    /// When the stream ends.
    spec fn spec_exit_case(&self) -> OverrideStreamExitCase;

    fn step(&mut self, ctx: &Context, page: Page) -> (r: OverrideAction)
        requires
            old(self).spec_can_step(),
        ensures
            r == old(self).spec_step_action(),
    ;

    fn should_enter(&self, ctx: &Context, page: Page) -> (r: bool)
        requires
            self.spec_enter_defined(ctx, page),
        ensures
            r == self.spec_should_enter(ctx, page),
    ;

    fn should_exit(&self, ctx: &Context, page: Page) -> (r: OverrideStreamExitCase)
        ensures
            r == self.spec_exit_case(),
    ;
}

/// Breaks the hierarchy for a run of pages after a page of type `after`: the run is
/// classified by walking through `fill_with` in order, one class per page, until a page
/// classifies as `end_on`; a step past the end of `fill_with` is not possible.
#[derive(Debug, Clone, PartialEq, Eq)]
pub struct MultiPageHierarchyBreak {
    pub after: KnownObject,
    pub impl_blank_after: bool,
    pub end_on: KnownObject,
    pub fill_with: Vec<KnownObject>,
    /// The position in `fill_with` of the next page's type.
    pub current_fillin_idx: usize,
}

impl MultiPageHierarchyBreak {
    /// The position in `fill_with` of the next page's type.
    pub open spec fn fill_index(&self) -> usize {
        self.current_fillin_idx
    }

    /// A stream that will start filling from the beginning of `fill_with`.
    pub fn new(
        after: KnownObject,
        impl_blank_after: bool,
        end_on: KnownObject,
        fill_with: Vec<KnownObject>,
    ) -> (r: Self)
        ensures
            r.after == after,
            r.impl_blank_after == impl_blank_after,
            r.end_on == end_on,
            r.fill_with == fill_with,
            r.fill_index() == 0,
    {
        MultiPageHierarchyBreak { after, impl_blank_after, end_on, fill_with, current_fillin_idx: 0 }
    }
}

impl Constraint for MultiPageHierarchyBreak {}

impl OverrideStream for MultiPageHierarchyBreak {
    open spec fn spec_step_action(&self) -> OverrideAction {
        OverrideAction::ClassifyAs(self.fill_with@[self.fill_index() as int])
    }

    open spec fn spec_can_step(&self) -> bool {
        self.fill_index() < self.fill_with@.len()
    }

    open spec fn spec_enter_defined(&self, ctx: &Context, page: Page) -> bool {
        &&& ctx.can_look_back(page)
        &&& self.impl_blank_after ==> ctx.can_look_back(Page((page.0 - 1) as u32))
    }

    open spec fn spec_should_enter(&self, ctx: &Context, page: Page) -> bool {
        if self.impl_blank_after {
            ctx.spec_previous(page) == KnownObject::UNKNOWN && ctx.spec_previous(
                Page((page.0 - 1) as u32),
            ) == self.after
        } else {
            ctx.spec_previous(page) == self.after
        }
    }

    open spec fn spec_exit_case(&self) -> OverrideStreamExitCase {
        OverrideStreamExitCase::IfClassifiedAs(self.end_on)
    }

    fn step(&mut self, _ctx: &Context, _page: Page) -> (r: OverrideAction)
        ensures
            final(self).fill_index() == old(self).fill_index() + 1,
            final(self).after == old(self).after,
            final(self).impl_blank_after == old(self).impl_blank_after,
            final(self).end_on == old(self).end_on,
            final(self).fill_with == old(self).fill_with,
    {
        let class = self.fill_with[self.current_fillin_idx];
        assert(self.current_fillin_idx < self.fill_with.len());
        if self.current_fillin_idx + 1 > self.fill_with.len() {
            self.current_fillin_idx = 0;
        } else {
            self.current_fillin_idx = self.current_fillin_idx + 1;
        }
        OverrideAction::ClassifyAs(class)
    }

    fn should_enter(&self, ctx: &Context, page: Page) -> (r: bool) {
        if self.impl_blank_after {
            let is_prev_page_unknown = *ctx.previous_page_inference(page) == KnownObject::UNKNOWN;
            let is_prev_page_target = *ctx.previous_page_inference(page.previous()) == self.after;
            is_prev_page_unknown && is_prev_page_target
        } else {
            let is_prev_page_target = *ctx.previous_page_inference(page) == self.after;
            is_prev_page_target
        }
    }

    fn should_exit(&self, _ctx: &Context, _page: Page) -> (r: OverrideStreamExitCase) {
        OverrideStreamExitCase::IfClassifiedAs(self.end_on)
    }
}

/// A hierarchy break takes over on a page only after its `after` class: right after it when
/// no blank page is expected, or, when one is, only when the previous page was decided
/// `UNKNOWN` (the blank) and the page before that as `after`; both are needed.
pub proof fn lemma_hierarchy_break_entry(
    stream: &MultiPageHierarchyBreak,
    ctx: &Context,
    page: Page,
)
    ensures
        stream.impl_blank_after ==> (stream.spec_should_enter(ctx, page) <==> (
        ctx.spec_previous(page) == KnownObject::UNKNOWN && ctx.spec_previous(
            Page((page.0 - 1) as u32),
        ) == stream.after)),
        !stream.impl_blank_after ==> (stream.spec_should_enter(ctx, page)
            <==> ctx.spec_previous(page) == stream.after),
        stream.spec_should_enter(ctx, page) ==> ctx.spec_previous(page) == stream.after
            || ctx.spec_previous(page) == KnownObject::UNKNOWN,
{
}

/// A blank-after override skips a page exactly when the page is not the first and the page
/// before it was decided as the configured class; it takes no other action.
pub proof fn lemma_blank_after_skips(b: BlankAfter, ctx: &Context, class: KnownObject, page: Page)
    ensures
        OverrideConstraints::BlankAfter(b).spec_action(ctx, class, page) is Some ==> OverrideConstraints::BlankAfter(
            b,
        ).spec_action(ctx, class, page) == Some(OverrideAction::Skip),
        OverrideConstraints::BlankAfter(b).spec_action(ctx, class, page) is Some <==> (page
            != ctx.start_page && ctx.spec_previous(page) == b.config),
{
}

/// A hierarchy break classifies its next page as the class at its position in `fill_with`,
/// and its exit is classifying a page as `end_on`.
pub proof fn lemma_hierarchy_break_pattern(stream: &MultiPageHierarchyBreak)
    ensures
        stream.spec_step_action() == OverrideAction::ClassifyAs(
            stream.fill_with@[stream.current_fillin_idx as int],
        ),
        stream.spec_exit_case() == OverrideStreamExitCase::IfClassifiedAs(stream.end_on),
        stream.spec_can_step() <==> stream.current_fillin_idx < stream.fill_with@.len(),
{
}

} // verus!
