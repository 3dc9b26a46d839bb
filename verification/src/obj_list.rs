use vstd::prelude::*;
use crate::constraints::definitive::{DefinitiveConstraints, FirstPageRoot, SecondInPair, spec_definitive_of};
use crate::constraints::hard::{HardConstraints, IllegalSecondInPair, HardConstraint};
use crate::constraints::soft::{SoftConstraints, spec_soft_of};
use crate::constraints::definitive::DefinitiveConstraint;
use crate::constraints::{DEFINITIVE_ENUM_VARIANT_COUNT, HARD_ENUM_VARIANT_COUNT, SOFT_ENUM_VARIANT_COUNT};
use crate::context::Context;
use crate::inferencer::{InferenceError, InferenceResult};
use crate::page::Page;
use crate::schema::{KnownObject, OBJECT_COUNT, spec_object_of};
use crate::score::{Score, spec_weight};

verus! {

/// The total weight of a list of scores, in hundredths of a point.
pub open spec fn spec_score_sum(s: Seq<Score>) -> int
    decreases s.len(),
{
    if s.len() == 0 {
        0
    } else {
        spec_score_sum(s.drop_last()) + spec_weight(s.last())
    }
}

/// The scores a candidate collected from the soft constraints.
#[derive(Debug)]
pub struct ScoreList(pub Vec<Score>);

impl ScoreList {
    /// The total weight of the scores, in hundredths of a point.
    pub fn sum(&self) -> (r: i128)
        ensures
            r == spec_score_sum(self.0@),
    {
        let mut total: i128 = 0;
        let mut i: usize = 0;
        while i < self.0.len()
            invariant
                i <= self.0@.len(),
                total == spec_score_sum(self.0@.take(i as int)),
                -80 * i <= total <= 80 * i,
            decreases self.0@.len() - i,
        {
            assert(self.0@.take((i + 1) as int).drop_last() =~= self.0@.take(i as int));
            total = total + self.0[i].weight() as i128;
            i = i + 1;
        }
        assert(self.0@.take(i as int) =~= self.0@);
        total
    }
}

/// `s` without the object types in `g` and without repeats, first occurrences kept in order.
pub open spec fn spec_filter_out(s: Seq<KnownObject>, g: Seq<KnownObject>) -> Seq<KnownObject>
    decreases s.len(),
{
    if s.len() == 0 {
        Seq::empty()
    } else {
        let r = spec_filter_out(s.drop_last(), g);
        let x = s.last();
        if g.contains(x) || r.contains(x) {
            r
        } else {
            r.push(x)
        }
    }
}

/// The candidates left of `s` once the object types `page` is known not to be are removed.
pub open spec fn spec_without_failed(ctx: &Context, page: Page, s: Seq<KnownObject>) -> Seq<
    KnownObject,
> {
    if ctx.guarantee_failures.view().contains_key(page.0) {
        spec_filter_out(s, ctx.guarantee_failures.view()[page.0])
    } else {
        s
    }
}

/// Every object type, in discriminant order.
pub open spec fn spec_all_objects() -> Seq<KnownObject> {
    seq![
        KnownObject::UNKNOWN,
        KnownObject::CHAPTER,
        KnownObject::SUBCHAPTER,
        KnownObject::DIAGRAM,
        KnownObject::DATATABLE,
    ]
}

/// What `spec_filter_out` keeps is exactly what `s` holds outside `g`, each once.
pub proof fn lemma_filter_out_contents(s: Seq<KnownObject>, g: Seq<KnownObject>)
    ensures
        spec_filter_out(s, g).no_duplicates(),
        forall|x: KnownObject| #[trigger]
            spec_filter_out(s, g).contains(x) <==> (s.contains(x) && !g.contains(x)),
    decreases s.len(),
{
    if s.len() > 0 {
        lemma_filter_out_contents(s.drop_last(), g);
        let r = spec_filter_out(s.drop_last(), g);
        assert forall|x: KnownObject| #[trigger]
            spec_filter_out(s, g).contains(x) <==> (s.contains(x) && !g.contains(x)) by {
            if s.contains(x) {
                let k = choose|k: int| 0 <= k < s.len() && s[k] == x;
                if k < s.len() - 1 {
                    assert(s.drop_last()[k] == x);
                }
            }
            if s.drop_last().contains(x) {
                let k = choose|k: int| 0 <= k < s.drop_last().len() && s.drop_last()[k] == x;
                assert(s[k] == x);
            }
            if !(g.contains(s.last()) || r.contains(s.last())) {
                assert(r.push(s.last()).last() == s.last());
                if r.push(s.last()).contains(x) {
                    let k = choose|k: int| 0 <= k < r.push(s.last()).len() && r.push(s.last())[k] == x;
                    if k < r.len() {
                        assert(r[k] == x);
                    }
                }
                if r.contains(x) {
                    let k = choose|k: int| 0 <= k < r.len() && r[k] == x;
                    assert(r.push(s.last())[k] == x);
                }
            }
        }
    }
}

/// The first candidate of `s` for which definitive constraint `k` holds on `page`.
pub open spec fn spec_first_holding(
    ctx: &Context,
    page: Page,
    k: DefinitiveConstraints,
    s: Seq<KnownObject>,
) -> Option<KnownObject>
    decreases s.len(),
{
    if s.len() == 0 {
        None
    } else {
        match spec_first_holding(ctx, page, k, s.drop_last()) {
            Some(x) => Some(x),
            None => if k.spec_holds(ctx, s.last(), page) {
                Some(s.last())
            } else {
                None
            },
        }
    }
}

/// The winner the definitive constraints name among `s`: the first candidate for which the
/// first constraint holds, else the first for which the second holds, else none.
pub open spec fn spec_definitive_pick(ctx: &Context, page: Page, s: Seq<KnownObject>) -> Option<
    KnownObject,
> {
    match spec_first_holding(ctx, page, DefinitiveConstraints::FirstPageRoot, s) {
        Some(x) => Some(x),
        None => spec_first_holding(ctx, page, DefinitiveConstraints::SecondInPair, s),
    }
}

/// The candidates left after the definitive stage: the named winner alone, or else all
/// candidates not known to fail.
pub open spec fn spec_after_definitive(ctx: &Context, page: Page, s: Seq<KnownObject>) -> Seq<
    KnownObject,
> {
    let l = spec_without_failed(ctx, page, s);
    match spec_definitive_pick(ctx, page, l) {
        Some(x) => seq![x],
        None => l,
    }
}

/// Whether the definitive stage reads no missing decision: the second constraint looks at
/// the previous page, and it is only evaluated when the first names no winner among
/// a non-empty list.
pub open spec fn spec_definitive_defined(ctx: &Context, page: Page, s: Seq<KnownObject>) -> bool {
    let l = spec_without_failed(ctx, page, s);
    (spec_first_holding(ctx, page, DefinitiveConstraints::FirstPageRoot, l) is None && l.len()
        > 0) ==> ctx.can_look_back(page)
}

/// The candidates of `s` that pass hard constraint `k` on `page`, in order.
pub open spec fn spec_keep_passing(
    ctx: &Context,
    page: Page,
    k: HardConstraints,
    s: Seq<KnownObject>,
) -> Seq<KnownObject>
    decreases s.len(),
{
    if s.len() == 0 {
        Seq::empty()
    } else {
        let r = spec_keep_passing(ctx, page, k, s.drop_last());
        if k.spec_passes(ctx, s.last(), page) {
            r.push(s.last())
        } else {
            r
        }
    }
}

/// The candidates left after the hard stage: those not known to fail that pass every hard
/// constraint, in order.
pub open spec fn spec_after_hard(ctx: &Context, page: Page, s: Seq<KnownObject>) -> Seq<
    KnownObject,
> {
    spec_keep_passing(
        ctx,
        page,
        HardConstraints::IllegalSecondInPair,
        spec_without_failed(ctx, page, s),
    )
}

/// Whether the hard stage reads no missing decision.
pub open spec fn spec_hard_defined(ctx: &Context, page: Page, s: Seq<KnownObject>) -> bool {
    spec_without_failed(ctx, page, s).len() > 0 ==> ctx.can_look_back(page)
}

/// What survives `spec_keep_passing` is a sub-list of its input.
pub proof fn lemma_keep_passing_subset(
    ctx: &Context,
    page: Page,
    k: HardConstraints,
    s: Seq<KnownObject>,
)
    ensures
        spec_keep_passing(ctx, page, k, s).len() <= s.len(),
        forall|x: KnownObject| #[trigger]
            spec_keep_passing(ctx, page, k, s).contains(x) ==> s.contains(x),
    decreases s.len(),
{
    if s.len() > 0 {
        lemma_keep_passing_subset(ctx, page, k, s.drop_last());
        let r = spec_keep_passing(ctx, page, k, s.drop_last());
        assert forall|x: KnownObject| #[trigger]
            spec_keep_passing(ctx, page, k, s).contains(x) implies s.contains(x) by {
            if r.contains(x) {
                let j = choose|j: int| 0 <= j < r.len() && r[j] == x;
                assert(s.drop_last().contains(x));
                let m = choose|m: int| 0 <= m < s.drop_last().len() && s.drop_last()[m] == x;
                assert(s[m] == x);
            } else if spec_keep_passing(ctx, page, k, s).contains(x) {
                let j = choose|j: int|
                    0 <= j < spec_keep_passing(ctx, page, k, s).len() && spec_keep_passing(
                        ctx,
                        page,
                        k,
                        s,
                    )[j] == x;
                if j < r.len() {
                    assert(r[j] == x);
                }
                assert(s[s.len() - 1] == x);
            }
        }
    }
}

/// Every candidate that survives `spec_keep_passing` passes the constraint.
pub proof fn lemma_keep_passing_passes(
    ctx: &Context,
    page: Page,
    k: HardConstraints,
    s: Seq<KnownObject>,
)
    ensures
        forall|x: KnownObject| #[trigger]
            spec_keep_passing(ctx, page, k, s).contains(x) ==> k.spec_passes(ctx, x, page),
    decreases s.len(),
{
    if s.len() > 0 {
        lemma_keep_passing_passes(ctx, page, k, s.drop_last());
        let r = spec_keep_passing(ctx, page, k, s.drop_last());
        assert forall|x: KnownObject| #[trigger]
            spec_keep_passing(ctx, page, k, s).contains(x) implies k.spec_passes(ctx, x, page) by {
            let t = spec_keep_passing(ctx, page, k, s);
            let j = choose|j: int| 0 <= j < t.len() && t[j] == x;
            if j < r.len() {
                assert(r[j] == x);
                assert(r.contains(x));
            }
        }
    }
}

/// A sequence without duplicates and without members of `g` is left as it is by
/// `spec_filter_out`.
proof fn lemma_filter_out_keeps(s: Seq<KnownObject>, g: Seq<KnownObject>)
    requires
        s.no_duplicates(),
        forall|x: KnownObject| #[trigger] s.contains(x) ==> !g.contains(x),
    ensures
        spec_filter_out(s, g) == s,
    decreases s.len(),
{
    if s.len() > 0 {
        let d = s.drop_last();
        assert forall|x: KnownObject| #[trigger] d.contains(x) implies !g.contains(x) by {
            let j = choose|j: int| 0 <= j < d.len() && d[j] == x;
            assert(s[j] == x);
            assert(s.contains(x));
        }
        assert(d.no_duplicates()) by {
            assert forall|i: int, j: int| 0 <= i < d.len() && 0 <= j < d.len() && i != j implies d[i]
                != d[j] by {
                assert(s[i] == d[i] && s[j] == d[j]);
            }
        }
        lemma_filter_out_keeps(d, g);
        assert(s.contains(s.last())) by {
            assert(s[s.len() - 1] == s.last());
        }
        if d.contains(s.last()) {
            let j = choose|j: int| 0 <= j < d.len() && d[j] == s.last();
            assert(s[j] == s[s.len() - 1]);
        }
        assert(d.push(s.last()) =~= s);
    }
}

/// Keeping the candidates that pass a hard constraint keeps a list without duplicates free
/// of them.
proof fn lemma_keep_passing_no_duplicates(
    ctx: &Context,
    page: Page,
    k: HardConstraints,
    s: Seq<KnownObject>,
)
    requires
        s.no_duplicates(),
    ensures
        spec_keep_passing(ctx, page, k, s).no_duplicates(),
    decreases s.len(),
{
    if s.len() > 0 {
        let d = s.drop_last();
        assert(d.no_duplicates()) by {
            assert forall|i: int, j: int| 0 <= i < d.len() && 0 <= j < d.len() && i != j implies d[i]
                != d[j] by {
                assert(s[i] == d[i] && s[j] == d[j]);
            }
        }
        lemma_keep_passing_no_duplicates(ctx, page, k, d);
        lemma_keep_passing_subset(ctx, page, k, d);
        let r = spec_keep_passing(ctx, page, k, d);
        if k.spec_passes(ctx, s.last(), page) {
            if r.contains(s.last()) {
                let j = choose|j: int| 0 <= j < d.len() && d[j] == s.last();
                assert(s[j] == s[s.len() - 1]);
            }
            let t = r.push(s.last());
            assert forall|i: int, j: int| 0 <= i < t.len() && 0 <= j < t.len() && i != j implies t[i]
                != t[j] by {
                if i == r.len() {
                    assert(r.contains(t[j]));
                } else if j == r.len() {
                    assert(r.contains(t[i]));
                }
            }
        }
    }
}

/// Keeping the candidates that pass a hard constraint a second time keeps them all.
proof fn lemma_keep_passing_twice(ctx: &Context, page: Page, k: HardConstraints, s: Seq<KnownObject>)
    ensures
        spec_keep_passing(ctx, page, k, spec_keep_passing(ctx, page, k, s)) == spec_keep_passing(
            ctx,
            page,
            k,
            s,
        ),
    decreases s.len(),
{
    if s.len() > 0 {
        lemma_keep_passing_twice(ctx, page, k, s.drop_last());
        let r = spec_keep_passing(ctx, page, k, s.drop_last());
        if k.spec_passes(ctx, s.last(), page) {
            assert(r.push(s.last()).drop_last() =~= r);
        }
    }
}

/// The hard stage removes nothing more when it runs a second time on what it left.
pub proof fn lemma_hard_stage_idempotent(ctx: &Context, page: Page, s: Seq<KnownObject>)
    ensures
        spec_after_hard(ctx, page, spec_after_hard(ctx, page, s)) == spec_after_hard(ctx, page, s),
{
    let k = HardConstraints::IllegalSecondInPair;
    let l = spec_without_failed(ctx, page, s);
    let h = spec_keep_passing(ctx, page, k, l);
    lemma_keep_passing_twice(ctx, page, k, l);
    if ctx.guarantee_failures.view().contains_key(page.0) {
        let g = ctx.guarantee_failures.view()[page.0];
        lemma_filter_out_contents(s, g);
        lemma_keep_passing_no_duplicates(ctx, page, k, l);
        lemma_keep_passing_subset(ctx, page, k, l);
        assert forall|x: KnownObject| #[trigger] h.contains(x) implies !g.contains(x) by {
            assert(l.contains(x));
        }
        lemma_filter_out_keeps(h, g);
    }
}

/// A candidate of `s` that passes the constraint survives `spec_keep_passing`.
proof fn lemma_keep_passing_keeps(
    ctx: &Context,
    page: Page,
    k: HardConstraints,
    s: Seq<KnownObject>,
    x: KnownObject,
)
    requires
        s.contains(x),
        k.spec_passes(ctx, x, page),
    ensures
        spec_keep_passing(ctx, page, k, s).contains(x),
    decreases s.len(),
{
    let d = s.drop_last();
    let r = spec_keep_passing(ctx, page, k, d);
    if s.last() == x {
        assert(r.push(x)[r.len() as int] == x);
    } else {
        let j = choose|j: int| 0 <= j < s.len() && s[j] == x;
        assert(j < s.len() - 1);
        assert(d[j] == x);
        lemma_keep_passing_keeps(ctx, page, k, d, x);
        if k.spec_passes(ctx, s.last(), page) {
            let t = choose|t: int| 0 <= t < r.len() && r[t] == x;
            assert(r.push(s.last())[t] == x);
        }
    }
}

/// The hard stage keeps exactly the candidates not known to fail that are not the second of
/// a pair, together with the second of a pair right after a page decided as the first of a
/// pair: a second of a pair survives only right after the first of a pair.
pub proof fn lemma_hard_stage_members(ctx: &Context, page: Page, s: Seq<KnownObject>, x: KnownObject)
    ensures
        spec_after_hard(ctx, page, s).contains(x) <==> (spec_without_failed(ctx, page, s).contains(x)
            && (x.spec_is_second_in_pair() ==> ctx.spec_previous(page).spec_is_first_in_pair())),
{
    let k = HardConstraints::IllegalSecondInPair;
    let l = spec_without_failed(ctx, page, s);
    lemma_keep_passing_subset(ctx, page, k, l);
    lemma_keep_passing_passes(ctx, page, k, l);
    if l.contains(x) && (x.spec_is_second_in_pair() ==> ctx.spec_previous(page).spec_is_first_in_pair()) {
        lemma_keep_passing_keeps(ctx, page, k, l, x);
    }
}

/// Whether entry `j` of `s` is the first entry holding its object type.
pub open spec fn spec_is_first_entry(s: Seq<KnownObject>, j: int) -> bool {
    forall|t: int| 0 <= t < j ==> s[t] != s[j]
}

/// The weight soft constraint `k` gives, on `page`, to the occurrences of `c` among the
/// first `i` entries of `s`.
pub open spec fn spec_class_prefix(
    ctx: &Context,
    page: Page,
    k: SoftConstraints,
    s: Seq<KnownObject>,
    c: KnownObject,
    i: int,
) -> int
    decreases i,
{
    if i <= 0 {
        0
    } else {
        spec_class_prefix(ctx, page, k, s, c, i - 1) + if s[i - 1] == c {
            spec_weight(k.spec_score(ctx, c, page))
        } else {
            0
        }
    }
}

/// The score entry `j` of `s` collects on `page`: each time an object type occurs, every
/// soft constraint scores it into the entry of its first occurrence, so that entry holds
/// the scores of all occurrences and later entries of the same type hold none.
pub open spec fn spec_entry_score(ctx: &Context, page: Page, s: Seq<KnownObject>, j: int) -> int {
    if spec_is_first_entry(s, j) {
        spec_class_prefix(ctx, page, SoftConstraints::REWARD_IsNaturalChild, s, s[j], s.len() as int)
            + spec_class_prefix(ctx, page, SoftConstraints::REWARD_FirstInPair, s, s[j], s.len() as int)
    } else {
        0
    }
}

/// The scores of all entries of `s` on `page`.
pub open spec fn spec_soft_keys(ctx: &Context, page: Page, s: Seq<KnownObject>) -> Seq<int> {
    Seq::new(s.len(), |j: int| spec_entry_score(ctx, page, s, j))
}

/// Whether both soft constraints are defined on every candidate of `s`.
pub open spec fn spec_soft_stage_defined(ctx: &Context, page: Page, s: Seq<KnownObject>) -> bool {
    forall|j: int|
        #![trigger s[j]]
        0 <= j < s.len() ==> SoftConstraints::REWARD_IsNaturalChild.spec_defined(ctx, s[j], page)
            && SoftConstraints::REWARD_FirstInPair.spec_defined(ctx, s[j], page)
}

/// Whether some position of `p` maps to `m`.
pub open spec fn spec_covers(p: Seq<int>, m: int) -> bool {
    exists|i: int| 0 <= i < p.len() && #[trigger] p[i] == m
}

/// `out` is `items` sorted by `keys` in ascending order, entries with equal keys kept in
/// their original order; `p` maps each position of `out` to the position in `items` it came
/// from.
pub open spec fn is_stable_sort(
    items: Seq<KnownObject>,
    keys: Seq<int>,
    p: Seq<int>,
    out: Seq<KnownObject>,
) -> bool {
    &&& keys.len() == items.len()
    &&& p.len() == items.len()
    &&& out.len() == items.len()
    &&& forall|i: int| 0 <= i < p.len() ==> 0 <= #[trigger] p[i] < items.len() && out[i] == items[p[i]]
    &&& forall|i: int, j: int| 0 <= i < j < p.len() ==> #[trigger] p[i] != #[trigger] p[j]
    &&& forall|m: int| 0 <= m < items.len() ==> #[trigger] spec_covers(p, m)
    &&& forall|i: int, j: int| 0 <= i < j < p.len() ==> keys[#[trigger] p[i]] <= keys[#[trigger] p[j]]
    &&& forall|i: int, j: int|
        0 <= i < j < p.len() && keys[#[trigger] p[i]] == keys[#[trigger] p[j]] ==> p[i] < p[j]
}

/// The position of the highest key, the last one among equals.
pub open spec fn spec_best_index(keys: Seq<int>) -> int
    decreases keys.len(),
{
    if keys.len() <= 1 {
        0
    } else {
        let b = spec_best_index(keys.drop_last());
        if keys.last() >= keys[b] {
            keys.len() - 1
        } else {
            b
        }
    }
}

/// The best index holds the highest key, and no later position holds one as high.
pub proof fn lemma_best_index(keys: Seq<int>)
    requires
        keys.len() > 0,
    ensures
        0 <= spec_best_index(keys) < keys.len(),
        forall|j: int| 0 <= j < keys.len() ==> #[trigger] keys[j] <= keys[spec_best_index(keys)],
        forall|j: int|
            spec_best_index(keys) < j < keys.len() ==> #[trigger] keys[j] < keys[spec_best_index(
                keys,
            )],
    decreases keys.len(),
{
    if keys.len() > 1 {
        let d = keys.drop_last();
        lemma_best_index(d);
        let b = spec_best_index(d);
        let best = spec_best_index(keys);
        assert forall|j: int| 0 <= j < keys.len() implies #[trigger] keys[j] <= keys[best] by {
            if j < keys.len() - 1 {
                assert(d[j] <= d[b]);
            }
        }
        assert forall|j: int| best < j < keys.len() implies #[trigger] keys[j] < keys[best] by {
            if j < keys.len() - 1 {
                assert(d[j] < d[b]);
            }
        }
    }
}

/// The last entry of a stable sort is the entry with the highest key, the last one among
/// equals.
pub proof fn lemma_stable_sort_last(
    items: Seq<KnownObject>,
    keys: Seq<int>,
    p: Seq<int>,
    out: Seq<KnownObject>,
)
    requires
        is_stable_sort(items, keys, p, out),
        items.len() > 0,
    ensures
        out.last() == items[spec_best_index(keys)],
{
    let n = items.len();
    let b = p[n - 1];
    lemma_best_index(keys);
    let best = spec_best_index(keys);
    assert forall|j: int| 0 <= j < n implies keys[j] <= keys[b] by {
        assert(spec_covers(p, j));
        let t = choose|t: int| 0 <= t < n && #[trigger] p[t] == j;
        if t < n - 1 {
            assert(keys[p[t]] <= keys[p[n - 1]]);
        }
    }
    assert forall|j: int| b < j < n implies keys[j] < keys[b] by {
        assert(spec_covers(p, j));
        let t = choose|t: int| 0 <= t < n && #[trigger] p[t] == j;
        if t < n - 1 {
            assert(keys[p[t]] <= keys[p[n - 1]]);
            if keys[p[t]] == keys[p[n - 1]] {
                assert(p[t] < p[n - 1]);
            }
        }
    }
    assert(b == best);
}

/// The weight the first `k` soft constraints gave the occurrences of `c` in all of `s`.
pub open spec fn spec_done_weight(
    ctx: &Context,
    page: Page,
    s: Seq<KnownObject>,
    c: KnownObject,
    k: int,
) -> int {
    if k <= 0 {
        0
    } else if k == 1 {
        spec_class_prefix(ctx, page, SoftConstraints::REWARD_IsNaturalChild, s, c, s.len() as int)
    } else {
        spec_class_prefix(ctx, page, SoftConstraints::REWARD_IsNaturalChild, s, c, s.len() as int)
            + spec_class_prefix(ctx, page, SoftConstraints::REWARD_FirstInPair, s, c, s.len() as int)
    }
}

/// The score entry `j` holds once soft constraint `k` has scored the first `i` entries.
pub open spec fn spec_entry_progress(
    ctx: &Context,
    page: Page,
    s: Seq<KnownObject>,
    j: int,
    k: int,
    i: int,
) -> int {
    if spec_is_first_entry(s, j) {
        spec_done_weight(ctx, page, s, s[j], k) + spec_class_prefix(
            ctx,
            page,
            spec_soft_of(k),
            s,
            s[j],
            i,
        )
    } else {
        0
    }
}

/// The candidates after the soft stage: those not known to fail, stably sorted by score,
/// lowest first; a list of at most one candidate is left as it is.
pub open spec fn spec_soft_sorted(
    ctx: &Context,
    page: Page,
    s: Seq<KnownObject>,
    out: Seq<KnownObject>,
) -> bool {
    let l = spec_without_failed(ctx, page, s);
    if l.len() <= 1 {
        out == l
    } else {
        exists|p: Seq<int>| #[trigger] is_stable_sort(l, spec_soft_keys(ctx, page, l), p, out)
    }
}

/// The candidate object types of a page.
#[derive(Clone)]
pub struct KnownObjectList(pub Vec<KnownObject>);

impl KnownObjectList {
    /// Every object type, in discriminant order.
    pub fn new() -> (r: Self)
        ensures
            r.0@ == spec_all_objects(),
    {
        let mut vec: Vec<KnownObject> = Vec::new();
        let mut discrim: u8 = 0;
        while discrim < OBJECT_COUNT
            invariant
                discrim <= OBJECT_COUNT,
                vec@.len() == discrim,
                forall|j: int| 0 <= j < discrim ==> vec@[j] == spec_object_of(j as u8),
            decreases OBJECT_COUNT - discrim,
        {
            let obj = KnownObject::try_from_u8(discrim).unwrap();
            vec.push(obj);
            discrim = discrim + 1;
        }
        assert(vec@ =~= spec_all_objects()) by {
            assert(vec@[0] == spec_object_of(0u8));
            assert(vec@[1] == spec_object_of(1u8));
            assert(vec@[2] == spec_object_of(2u8));
            assert(vec@[3] == spec_object_of(3u8));
            assert(vec@[4] == spec_object_of(4u8));
        }
        KnownObjectList(vec)
    }

    /// The candidates of `vec`, in its order.
    pub fn from_vec(vec: Vec<KnownObject>) -> (r: Self)
        ensures
            r.0@ == vec@,
    {
        KnownObjectList(vec)
    }

    /// The candidates without those in `guaranteed_not_to_be`, each kept once.
    pub fn filter_out(self, guaranteed_not_to_be: &Vec<KnownObject>) -> (r: Self)
        ensures
            r.0@ == spec_filter_out(self.0@, guaranteed_not_to_be@),
            r.0@.no_duplicates(),
            forall|x: KnownObject| #[trigger]
                r.0@.contains(x) <==> (self.0@.contains(x) && !guaranteed_not_to_be@.contains(x)),
    {
        let mut out: Vec<KnownObject> = Vec::new();
        let mut i: usize = 0;
        while i < self.0.len()
            invariant
                i <= self.0@.len(),
                out@ == spec_filter_out(self.0@.take(i as int), guaranteed_not_to_be@),
            decreases self.0@.len() - i,
        {
            let x = self.0[i];
            assert(self.0@.take((i + 1) as int).drop_last() =~= self.0@.take(i as int));
            if !contains(guaranteed_not_to_be, x) && !contains(&out, x) {
                out.push(x);
            }
            i = i + 1;
        }
        assert(self.0@.take(i as int) =~= self.0@);
        proof {
            lemma_filter_out_contents(self.0@, guaranteed_not_to_be@);
        }
        KnownObjectList(out)
    }

    /// The candidates without those `page` is known not to be.
    fn filter_out_failed(self, ctx: &Context, page: &Page) -> (r: Self)
        ensures
            r.0@ == spec_without_failed(ctx, *page, self.0@),
    {
        match ctx.guarantee_failures.get(*page) {
            Some(results) => self.filter_out(results),
            None => self,
        }
    }

    /// The first candidate for which definitive constraint `constraint` holds.
    fn find_holding(&self, ctx: &Context, page: Page, constraint: DefinitiveConstraints) -> (r:
        Option<KnownObject>)
        requires
            forall|j: int|
                0 <= j < self.0@.len() ==> constraint.spec_defined(ctx, #[trigger] self.0@[j], page),
        ensures
            r == spec_first_holding(ctx, page, constraint, self.0@),
    {
        let mut i: usize = 0;
        while i < self.0.len()
            invariant
                i <= self.0@.len(),
                forall|j: int|
                    0 <= j < self.0@.len() ==> constraint.spec_defined(ctx, #[trigger] self.0@[j], page),
                spec_first_holding(ctx, page, constraint, self.0@.take(i as int)) is None,
            decreases self.0@.len() - i,
        {
            let x = self.0[i];
            assert(self.0@.take((i + 1) as int).drop_last() =~= self.0@.take(i as int));
            if constraint.eval(ctx, x, page) {
                proof {
                    lemma_first_holding_prefix(ctx, page, constraint, self.0@, (i + 1) as int);
                }
                return Some(x);
            }
            i = i + 1;
        }
        assert(self.0@.take(i as int) =~= self.0@);
        None
    }

    /// The winner the definitive constraints name among the candidates not known to fail:
    /// the first for which the first constraint holds, else the first for which the second
    /// holds, else none.
    pub fn definitive_winner(&self, ctx: &Context, page: Page) -> (r: InferenceResult<
        Option<KnownObject>,
    >)
        requires
            spec_definitive_defined(ctx, page, self.0@),
        ensures
            r == Ok::<Option<KnownObject>, InferenceError>(
                spec_definitive_pick(ctx, page, spec_without_failed(ctx, page, self.0@)),
            ),
    {
        let this = KnownObjectList(copy_list(&self.0)).filter_out_failed(ctx, &page);
        let mut def_constraint_discrim: usize = 0;
        while def_constraint_discrim < DEFINITIVE_ENUM_VARIANT_COUNT
            invariant
                def_constraint_discrim <= DEFINITIVE_ENUM_VARIANT_COUNT,
                this.0@ == spec_without_failed(ctx, page, self.0@),
                spec_definitive_defined(ctx, page, self.0@),
                def_constraint_discrim > 0 ==> spec_first_holding(
                    ctx,
                    page,
                    DefinitiveConstraints::FirstPageRoot,
                    this.0@,
                ) is None,
                def_constraint_discrim > 1 ==> spec_first_holding(
                    ctx,
                    page,
                    DefinitiveConstraints::SecondInPair,
                    this.0@,
                ) is None,
            decreases DEFINITIVE_ENUM_VARIANT_COUNT - def_constraint_discrim,
        {
            let def_constraint = match DefinitiveConstraints::try_from_usize(def_constraint_discrim) {
                Ok(c) => c,
                Err(e) => {
                    return Err(InferenceError::ConstraintCastError(e));
                },
            };
            let found = this.find_holding(ctx, page, def_constraint);
            match found {
                Some(class) => {
                    return Ok(Some(class));
                },
                None => {},
            }
            def_constraint_discrim = def_constraint_discrim + 1;
        }
        Ok(None)
    }

    /// Narrows the candidates to the winner of the first definitive constraint that names
    /// one; when none does, keeps the candidates not known to fail.
    pub fn filter_by_definitive_constraints(self, ctx: &Context, page: Page) -> (r:
        InferenceResult<Self>)
        requires
            spec_definitive_defined(ctx, page, self.0@),
        ensures
            r is Ok,
            r matches Ok(l) ==> l.0@ == spec_after_definitive(ctx, page, self.0@),
    {
        match self.definitive_winner(ctx, page) {
            Ok(Some(class)) => {
                let mut result: Vec<KnownObject> = Vec::new();
                result.push(class);
                assert(result@ =~= seq![class]);
                Ok(KnownObjectList(result))
            },
            Ok(None) => Ok(self.filter_out_failed(ctx, &page)),
            Err(e) => Err(e),
        }
    }

    /// The candidates of this list that pass hard constraint `constraint`, in order.
    fn keep_passing(&self, ctx: &Context, page: Page, constraint: HardConstraints) -> (r: Vec<
        KnownObject,
    >)
        requires
            forall|j: int|
                0 <= j < self.0@.len() ==> constraint.spec_defined(ctx, #[trigger] self.0@[j], page),
        ensures
            r@ == spec_keep_passing(ctx, page, constraint, self.0@),
    {
        let mut out: Vec<KnownObject> = Vec::new();
        let mut i: usize = 0;
        while i < self.0.len()
            invariant
                i <= self.0@.len(),
                forall|j: int|
                    0 <= j < self.0@.len() ==> constraint.spec_defined(ctx, #[trigger] self.0@[j], page),
                out@ == spec_keep_passing(ctx, page, constraint, self.0@.take(i as int)),
            decreases self.0@.len() - i,
        {
            let x = self.0[i];
            assert(self.0@.take((i + 1) as int).drop_last() =~= self.0@.take(i as int));
            if constraint.eval(ctx, x, page) {
                out.push(x);
            }
            i = i + 1;
        }
        assert(self.0@.take(i as int) =~= self.0@);
        out
    }

    /// Removes the candidates not known to fail that fail a hard constraint, keeping the
    /// order of the rest.
    pub fn filter_by_hard_constraints(self, ctx: &Context, page: Page) -> (r: InferenceResult<
        Self,
    >)
        requires
            spec_hard_defined(ctx, page, self.0@),
        ensures
            r is Ok,
            r matches Ok(l) ==> l.0@ == spec_after_hard(ctx, page, self.0@),
    {
        let mut this = self.filter_out_failed(ctx, &page);
        let mut hard_constraint: usize = 0;
        while hard_constraint < HARD_ENUM_VARIANT_COUNT
            invariant
                hard_constraint <= HARD_ENUM_VARIANT_COUNT,
                spec_hard_defined(ctx, page, self.0@),
                hard_constraint == 0 ==> this.0@ == spec_without_failed(ctx, page, self.0@),
                hard_constraint == 1 ==> this.0@ == spec_after_hard(ctx, page, self.0@),
            decreases HARD_ENUM_VARIANT_COUNT - hard_constraint,
        {
            let constraint = match HardConstraints::try_from_usize(hard_constraint) {
                Ok(c) => c,
                Err(e) => {
                    return Err(InferenceError::ConstraintCastError(e));
                },
            };
            let kept = this.keep_passing(ctx, page, constraint);
            this = KnownObjectList(kept);
            hard_constraint = hard_constraint + 1;
        }
        Ok(this)
    }

    /// Sorts the candidates not known to fail by the score the soft constraints give them,
    /// lowest first, keeping equally scored candidates in order.
    pub fn sort_by_soft_constraints(self, ctx: &Context, page: Page) -> (r: InferenceResult<
        Self,
    >)
        requires
            spec_without_failed(ctx, page, self.0@).len() > 1 ==> spec_soft_stage_defined(
                ctx,
                page,
                spec_without_failed(ctx, page, self.0@),
            ),
        ensures
            r is Ok,
            r matches Ok(l) ==> spec_soft_sorted(ctx, page, self.0@, l.0@),
    {
        let this = self.filter_out_failed(ctx, &page);
        let n = this.0.len();
        if n <= 1 {
            return Ok(this);
        }
        let ghost l = this.0@;
        let mut scores: Vec<ScoreList> = Vec::new();
        let mut j: usize = 0;
        while j < n
            invariant
                n == l.len(),
                j <= n,
                scores@.len() == j,
                forall|t: int| 0 <= t < j ==> (#[trigger] scores@[t]).0@.len() == 0,
            decreases n - j,
        {
            scores.push(ScoreList(Vec::with_capacity(SOFT_ENUM_VARIANT_COUNT)));
            j = j + 1;
        }
        let mut soft_constraint_idx: usize = 0;
        while soft_constraint_idx < SOFT_ENUM_VARIANT_COUNT
            invariant
                this.0@ == l,
                n == l.len(),
                spec_soft_stage_defined(ctx, page, l),
                soft_constraint_idx <= SOFT_ENUM_VARIANT_COUNT,
                scores@.len() == n,
                forall|t: int|
                    0 <= t < n ==> spec_score_sum((#[trigger] scores@[t]).0@) == spec_entry_progress(
                        ctx,
                        page,
                        l,
                        t,
                        soft_constraint_idx as int,
                        0,
                    ),
            decreases SOFT_ENUM_VARIANT_COUNT - soft_constraint_idx,
        {
            let soft_constraint = match SoftConstraints::try_from_usize(soft_constraint_idx) {
                Ok(c) => c,
                Err(e) => {
                    return Err(InferenceError::ConstraintCastError(e));
                },
            };
            let mut i: usize = 0;
            while i < n
                invariant
                    this.0@ == l,
                    n == l.len(),
                    spec_soft_stage_defined(ctx, page, l),
                    soft_constraint_idx < SOFT_ENUM_VARIANT_COUNT,
                    soft_constraint == spec_soft_of(soft_constraint_idx as int),
                    i <= n,
                    scores@.len() == n,
                    forall|t: int|
                        0 <= t < n ==> spec_score_sum((#[trigger] scores@[t]).0@)
                            == spec_entry_progress(
                            ctx,
                            page,
                            l,
                            t,
                            soft_constraint_idx as int,
                            i as int,
                        ),
                decreases n - i,
            {
                let class = this.0[i];
                assert(soft_constraint.spec_defined(ctx, l[i as int], page));
                let score = soft_constraint.eval(ctx, class, page);
                let position = first_position(&this.0, class, i);
                let ghost old_scores = scores@;
                let mut entry = scores.remove(position);
                let ghost old_entry = entry.0@;
                entry.0.push(score);
                assert(entry.0@.drop_last() =~= old_entry);
                scores.insert(position, entry);
                proof {
                    assert forall|t: int| 0 <= t < n implies spec_score_sum(
                        (#[trigger] scores@[t]).0@,
                    ) == spec_entry_progress(
                        ctx,
                        page,
                        l,
                        t,
                        soft_constraint_idx as int,
                        (i + 1) as int,
                    ) by {
                        if t == position {
                            assert(scores@[t] == entry);
                        } else {
                            assert(scores@[t] == old_scores[t]);
                            if spec_is_first_entry(l, t) && l[t] == class {
                                if t < position {
                                    assert(l[t] != class);
                                } else {
                                    assert(l[position as int] != l[t]);
                                }
                            }
                        }
                    }
                }
                i = i + 1;
            }
            soft_constraint_idx = soft_constraint_idx + 1;
        }
        let mut keys: Vec<i128> = Vec::new();
        let mut t: usize = 0;
        while t < n
            invariant
                n == l.len(),
                scores@.len() == n,
                t <= n,
                keys@.len() == t,
                forall|u: int|
                    0 <= u < n ==> spec_score_sum((#[trigger] scores@[u]).0@) == spec_entry_progress(
                        ctx,
                        page,
                        l,
                        u,
                        2,
                        0,
                    ),
                forall|u: int| 0 <= u < t ==> keys@[u] as int == #[trigger] spec_entry_score(ctx, page, l, u),
            decreases n - t,
        {
            let total = scores[t].sum();
            keys.push(total);
            t = t + 1;
        }
        let sorted = stable_sort(&this.0, &keys);
        assert(spec_int_keys(keys@) =~= spec_soft_keys(ctx, page, l));
        Ok(KnownObjectList(sorted))
    }

    /// The number of candidates.
    pub fn len(&self) -> (r: usize)
        ensures
            r == self.0@.len(),
    {
        self.0.len()
    }
}

/// Machine keys read as integers.
pub open spec fn spec_int_keys(keys: Seq<i128>) -> Seq<int> {
    keys.map_values(|k: i128| k as int)
}

/// Sorts `items` by `keys` in ascending order, keeping entries with equal keys in order.
fn stable_sort(items: &Vec<KnownObject>, keys: &Vec<i128>) -> (r: Vec<KnownObject>)
    requires
        items@.len() == keys@.len(),
    ensures
        exists|p: Seq<int>|
            #[trigger] is_stable_sort(items@, spec_int_keys(keys@), p, r@),
{
    let ghost ks = spec_int_keys(keys@);
    let mut out: Vec<KnownObject> = Vec::new();
    let mut out_keys: Vec<i128> = Vec::new();
    let ghost mut perm: Seq<int> = Seq::empty();
    let mut i: usize = 0;
    while i < items.len()
        invariant
            items@.len() == keys@.len(),
            ks == spec_int_keys(keys@),
            i <= items@.len(),
            out@.len() == i,
            out_keys@.len() == i,
            perm.len() == i,
            forall|t: int|
                0 <= t < i ==> 0 <= #[trigger] perm[t] < i && out@[t] == items@[perm[t]]
                    && out_keys@[t] == keys@[perm[t]],
            forall|t: int, u: int| 0 <= t < u < i ==> #[trigger] perm[t] != #[trigger] perm[u],
            forall|m: int| 0 <= m < i ==> #[trigger] spec_covers(perm, m),
            forall|t: int, u: int| 0 <= t < u < i ==> out_keys@[t] <= out_keys@[u],
            forall|t: int, u: int|
                0 <= t < u < i && out_keys@[t] == out_keys@[u] ==> perm[t] < perm[u],
        decreases items@.len() - i,
    {
        let k = keys[i];
        let mut pos: usize = 0;
        while pos < out_keys.len() && out_keys[pos] <= k
            invariant
                pos <= out_keys@.len(),
                forall|t: int| 0 <= t < pos ==> out_keys@[t] <= k,
            decreases out_keys@.len() - pos,
        {
            pos = pos + 1;
        }
        assert forall|t: int| pos <= t < out_keys@.len() implies out_keys@[t] > k by {
            assert(out_keys@[pos as int] > k);
            if t > pos {
                assert(out_keys@[pos as int] <= out_keys@[t]);
            }
        }
        let ghost old_perm = perm;
        let ghost old_keys = out_keys@;
        out.insert(pos, items[i]);
        out_keys.insert(pos, k);
        proof {
            perm = perm.insert(pos as int, i as int);
            assert forall|m: int| 0 <= m < i + 1 implies #[trigger] spec_covers(perm, m) by {
                if m == i {
                    assert(perm[pos as int] == m);
                } else {
                    assert(spec_covers(old_perm, m));
                    let t = choose|t: int| 0 <= t < i && #[trigger] old_perm[t] == m;
                    if t < pos {
                        assert(perm[t] == m);
                    } else {
                        assert(perm[t + 1] == m);
                    }
                }
            }
            assert forall|t: int, u: int| 0 <= t < u < i + 1 implies #[trigger] perm[t]
                != #[trigger] perm[u] by {
                if t == pos || u == pos {
                } else {
                    let t0 = if t < pos { t } else { t - 1 };
                    let u0 = if u < pos { u } else { u - 1 };
                    assert(old_perm[t0] != old_perm[u0]);
                }
            }
            assert forall|t: int, u: int| 0 <= t < u < i + 1 implies out_keys@[t]
                <= out_keys@[u] by {
                let t0 = if t < pos { t } else { t - 1 };
                let u0 = if u < pos { u } else { u - 1 };
                if t != pos && u != pos {
                    assert(old_keys[t0] <= old_keys[u0]);
                }
            }
            assert forall|t: int, u: int|
                0 <= t < u < i + 1 && out_keys@[t] == out_keys@[u] implies perm[t] < perm[u] by {
                let t0 = if t < pos { t } else { t - 1 };
                let u0 = if u < pos { u } else { u - 1 };
                if t != pos && u != pos {
                    assert(old_keys[t0] == old_keys[u0]);
                }
            }
        }
        i = i + 1;
    }
    assert(is_stable_sort(items@, ks, perm, out@));
    out
}

/// The first holding candidate, when there is one, is a candidate of the list.
pub proof fn lemma_first_holding_member(
    ctx: &Context,
    page: Page,
    k: DefinitiveConstraints,
    s: Seq<KnownObject>,
)
    ensures
        spec_first_holding(ctx, page, k, s) matches Some(x) ==> s.contains(x),
    decreases s.len(),
{
    if s.len() > 0 {
        lemma_first_holding_member(ctx, page, k, s.drop_last());
        match spec_first_holding(ctx, page, k, s.drop_last()) {
            Some(x) => {
                let j = choose|j: int| 0 <= j < s.drop_last().len() && s.drop_last()[j] == x;
                assert(s[j] == x);
            },
            None => {
                assert(s[s.len() - 1] == s.last());
            },
        }
    }
}

/// The first holding candidate, when there is one, is one for which the constraint holds.
pub(crate) proof fn lemma_first_holding_holds(
    ctx: &Context,
    page: Page,
    k: DefinitiveConstraints,
    s: Seq<KnownObject>,
)
    ensures
        spec_first_holding(ctx, page, k, s) matches Some(x) ==> k.spec_holds(ctx, x, page),
    decreases s.len(),
{
    if s.len() > 0 {
        lemma_first_holding_holds(ctx, page, k, s.drop_last());
    }
}

/// Removing known failures keeps only candidates of the list that are not known failures.
pub proof fn lemma_without_failed_members(ctx: &Context, page: Page, s: Seq<KnownObject>)
    ensures
        forall|x: KnownObject| #[trigger]
            spec_without_failed(ctx, page, s).contains(x) ==> s.contains(x) && (
            ctx.guarantee_failures.view().contains_key(page.0)
                ==> !ctx.guarantee_failures.view()[page.0].contains(x)),
{
    if ctx.guarantee_failures.view().contains_key(page.0) {
        lemma_filter_out_contents(s, ctx.guarantee_failures.view()[page.0]);
    }
}

/// Once a candidate within the first `i` holds, the first holding candidate of the whole list
/// is the first holding one among those `i`.
proof fn lemma_first_holding_prefix(
    ctx: &Context,
    page: Page,
    k: DefinitiveConstraints,
    s: Seq<KnownObject>,
    i: int,
)
    requires
        0 <= i <= s.len(),
        spec_first_holding(ctx, page, k, s.take(i)) is Some,
    ensures
        spec_first_holding(ctx, page, k, s) == spec_first_holding(ctx, page, k, s.take(i)),
    decreases s.len() - i,
{
    if i < s.len() {
        assert(s.take(i + 1).drop_last() =~= s.take(i));
        lemma_first_holding_prefix(ctx, page, k, s, i + 1);
    } else {
        assert(s.take(i) =~= s);
    }
}

/// The position of the first entry of `v` holding `x`, which entry `bound` holds.
fn first_position(v: &Vec<KnownObject>, x: KnownObject, bound: usize) -> (r: usize)
    requires
        bound < v@.len(),
        v@[bound as int] == x,
    ensures
        r <= bound,
        v@[r as int] == x,
        forall|t: int| 0 <= t < r ==> v@[t] != x,
{
    let mut i: usize = 0;
    while v[i] != x
        invariant
            i <= bound,
            bound < v@.len(),
            v@[bound as int] == x,
            forall|t: int| 0 <= t < i ==> v@[t] != x,
        decreases bound - i,
    {
        i = i + 1;
    }
    i
}

/// A copy of `v`.
pub(crate) fn copy_list(v: &Vec<KnownObject>) -> (r: Vec<KnownObject>)
    ensures
        r@ == v@,
{
    let mut out: Vec<KnownObject> = Vec::new();
    let mut i: usize = 0;
    while i < v.len()
        invariant
            i <= v@.len(),
            out@ == v@.take(i as int),
        decreases v@.len() - i,
    {
        out.push(v[i]);
        i = i + 1;
        assert(out@ =~= v@.take(i as int));
    }
    assert(v@.take(i as int) =~= v@);
    out
}

/// Whether `v` holds `x`.
fn contains(v: &Vec<KnownObject>, x: KnownObject) -> (r: bool)
    ensures
        r == v@.contains(x),
{
    let mut i: usize = 0;
    while i < v.len()
        invariant
            i <= v@.len(),
            forall|j: int| 0 <= j < i ==> v@[j] != x,
        decreases v@.len() - i,
    {
        if v[i] == x {
            assert(v@[i as int] == x);
            return true;
        }
        i = i + 1;
    }
    false
}

} // verus!
