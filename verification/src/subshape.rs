use vstd::prelude::*;
use crate::computable_shape::{ComputableShape, ComputableShapeGut, IsSubShapeResult, UnresolvedPShapeGut};
use crate::elementary_shape::{ElementaryPShape, ElementaryShape, elementary_subset, elementary_union};
use crate::realize::{copy_position, generic_substituted, pos_view, repositioned, simple_substituted};
use crate::route::Route;
use crate::shape_build::{built_from, description_ok, lemma_built_from_extend, lemma_grown_refl, lemma_grown_trans};
use crate::shape_data::ShapeDescriptionGut;
use crate::shape_keys::{ComputableShapeKey, GenericParamDescriptionKey, ShapeDescriptionKey};
use crate::shape_summary::{GrandShapeContentSummaryAtWork, pairs};

verus! {

/// The cost above which a subshape question is given up as too costly.
pub const SUBSHAPE_MAX_COST: usize = 128;

/// How bad an answer is when two answers must both hold: yes, then
/// undecided, then too costly, then no.
pub open spec fn rank(r: IsSubShapeResult) -> int {
    match r {
        IsSubShapeResult::True => 0,
        IsSubShapeResult::Stuck => 1,
        IsSubShapeResult::OverCost => 2,
        IsSubShapeResult::False => 3,
    }
}

/// The answer to two questions that must both come out yes: the worse one.
pub fn both(a: IsSubShapeResult, b: IsSubShapeResult) -> (res: IsSubShapeResult)
    ensures
        res == if rank(a) >= rank(b) { a } else { b },
{
    let ra: u8 = match a {
        IsSubShapeResult::True => 0,
        IsSubShapeResult::Stuck => 1,
        IsSubShapeResult::OverCost => 2,
        IsSubShapeResult::False => 3,
    };
    let rb: u8 = match b {
        IsSubShapeResult::True => 0,
        IsSubShapeResult::Stuck => 1,
        IsSubShapeResult::OverCost => 2,
        IsSubShapeResult::False => 3,
    };
    if ra >= rb { a } else { b }
}

/// The answer to two questions of which one must come out yes: the better one.
pub fn either(a: IsSubShapeResult, b: IsSubShapeResult) -> (res: IsSubShapeResult)
    ensures
        res == if rank(a) <= rank(b) { a } else { b },
{
    let ra: u8 = match a {
        IsSubShapeResult::True => 0,
        IsSubShapeResult::Stuck => 1,
        IsSubShapeResult::OverCost => 2,
        IsSubShapeResult::False => 3,
    };
    let rb: u8 = match b {
        IsSubShapeResult::True => 0,
        IsSubShapeResult::Stuck => 1,
        IsSubShapeResult::OverCost => 2,
        IsSubShapeResult::False => 3,
    };
    if ra <= rb { a } else { b }
}

/// Whether a shape is unresolved: a route with generic arguments or a
/// generic variable.
pub open spec fn is_unresolved(g: ComputableShapeGut) -> bool {
    g is Unresolved
}

impl<'a> GrandShapeContentSummaryAtWork<'a> {
    /// Ready for subshape questions: every recorded key is stored and the
    /// elementary shape `Any` has a computable shape.
    pub open spec fn ready(&self) -> bool {
        &&& self.keys_valid()
        &&& self.gsc_summary.ecs_key_table.has(ElementaryShape::Any)
    }

    /// The answer recorded for the question whether `sub` is a subshape of
    /// `sup`: yes where found or assumed, then no, undecided, too costly.
    pub open spec fn recorded_answer(&self, sub: usize, sup: usize) -> Option<IsSubShapeResult> {
        let p = (sub, sup);
        let b = self.gsc_summary.sub_shape_table_buffer;
        if pairs(&b.proven_true).contains(p) || self.assumed_pairs().contains(p) {
            Some(IsSubShapeResult::True)
        } else if pairs(&b.proven_false).contains(p) {
            Some(IsSubShapeResult::False)
        } else if pairs(&b.proven_stuck).contains(p) {
            Some(IsSubShapeResult::Stuck)
        } else if pairs(&b.proven_overcost).contains(p) {
            Some(IsSubShapeResult::OverCost)
        } else {
            None
        }
    }

    /// Whether answer `r` to the question whether `sub` is a subshape of
    /// `sup` is recorded in the table of that answer.
    pub open spec fn answer_recorded(&self, sub: usize, sup: usize, r: IsSubShapeResult) -> bool {
        let p = (sub, sup);
        let b = self.gsc_summary.sub_shape_table_buffer;
        match r {
            IsSubShapeResult::True => pairs(&b.proven_true).contains(p),
            IsSubShapeResult::False => pairs(&b.proven_false).contains(p),
            IsSubShapeResult::Stuck => pairs(&b.proven_stuck).contains(p),
            IsSubShapeResult::OverCost => pairs(&b.proven_overcost).contains(p),
        }
    }

    /// Whether every answer recorded in `old` is still recorded, the
    /// same questions are assumed, and every superset that ever had an
    /// assumption still has an entry.
    pub open spec fn answers_kept(&self, old: Self) -> bool {
        let b = self.gsc_summary.sub_shape_table_buffer;
        let o = old.gsc_summary.sub_shape_table_buffer;
        &&& self.assumed_pairs() == old.assumed_pairs()
        &&& pairs(&o.proven_true).subset_of(pairs(&b.proven_true))
        &&& pairs(&o.proven_false).subset_of(pairs(&b.proven_false))
        &&& pairs(&o.proven_stuck).subset_of(pairs(&b.proven_stuck))
        &&& pairs(&o.proven_overcost).subset_of(pairs(&b.proven_overcost))
        &&& forall|k: usize| #[trigger] o.assumption.has(k) ==> b.assumption.has(k)
    }

    /// Whether this summary came from `old` by asking subshape questions:
    /// it is ready, has grown from `old` and kept its answers.
    pub open spec fn progressed_from(&self, old: Self) -> bool {
        &&& self.ready()
        &&& self.grown_from(old)
        &&& self.answers_kept(old)
    }
}

/// Whether the question whether `a` is a subshape of `b` is settled yes in
/// `s` without comparing parts: `a` is `Empty`, `b` is `Any`, both are
/// elementary and `a` is a subset of `b`, or both are unresolved and yes is
/// recorded for them.
pub open spec fn settled_below(s: GrandShapeContentSummaryAtWork, a: usize, b: usize) -> bool {
    let s1 = s.shapes()[a as int];
    let s2 = s.shapes()[b as int];
    ||| s1.is_empty_shape()
    ||| s2.is_any_shape()
    ||| (form_of(s1.gut) == ShapeForm::Elementary && form_of(s2.gut) == ShapeForm::Elementary && elementary_subset(
        s1.gut->Elementary_0.gut,
        s2.gut->Elementary_0.gut,
    ))
    ||| (form_of(s1.gut) == ShapeForm::Unresolved && form_of(s2.gut) == ShapeForm::Unresolved && s.recorded_answer(a, b)
        == Some(IsSubShapeResult::True))
}

/// Whether some shape of `meets` is settled below some shape of `joins`
/// in `s` (see `settled_below`).
pub open spec fn some_pair_settled(s: GrandShapeContentSummaryAtWork, meets: Seq<ComputableShapeKey>, joins: Seq<ComputableShapeKey>) -> bool {
    exists|i: int, j: int| 0 <= i < meets.len() && 0 <= j < joins.len() && #[trigger] settled_below(s, meets[i].0, joins[j].0)
}

/// The pair that follows `p` when the pairs of a shape on the left and a
/// shape on the right, `n` of them on the right, are taken row by row.
pub open spec fn next_pair(p: (int, int), n: int) -> (int, int) {
    if p.1 + 1 < n {
        (p.0, p.1 + 1)
    } else {
        (p.0 + 1, 0)
    }
}

/// Whether the `k`-th pair of `ps` follows the one before it.
pub open spec fn step_ok(ps: Seq<(int, int)>, k: int, n: int) -> bool {
    ps[k] == next_pair(ps[k - 1], n)
}

/// The keys of the shapes `a` and `b`, in this order.
pub open spec fn two_keys(a: usize, b: usize) -> Seq<ComputableShapeKey> {
    seq![ComputableShapeKey(a), ComputableShapeKey(b)]
}

/// Whether the pairs `ps` of a shape of `meets` and a shape of `joins`
/// were asked in turn from `old` to `mid`, row by row from the first pair,
/// through the summaries `ss`, with answers `rs`, none of them yes but
/// perhaps the last.
pub open spec fn pair_steps(
    old: GrandShapeContentSummaryAtWork,
    mid: GrandShapeContentSummaryAtWork,
    meets: Seq<ComputableShapeKey>,
    joins: Seq<ComputableShapeKey>,
    ss: Seq<GrandShapeContentSummaryAtWork>,
    rs: Seq<IsSubShapeResult>,
    ps: Seq<(int, int)>,
) -> bool {
    &&& ss.len() == rs.len() + 1
    &&& ps.len() == rs.len()
    &&& ss[0] == old
    &&& ss.last() == mid
    &&& rs.len() > 0 ==> ps[0] == (0int, 0int)
    &&& forall|k: int| 0 < k < ps.len() ==> #[trigger] step_ok(ps, k, joins.len() as int)
    &&& forall|k: int| 0 <= k < rs.len() ==> 0 <= (#[trigger] ps[k]).0 < meets.len() && 0 <= ps[k].1 < joins.len()
    &&& forall|k: int| 0 <= k < rs.len() ==> asked(ss[k], ss[k + 1], meets[ps[k].0].0, joins[ps[k].1].0, #[trigger] rs[k])
    &&& forall|k: int| 0 <= k < rs.len() - 1 ==> #[trigger] rs[k] != IsSubShapeResult::True
}

/// Whether the pairs were asked as `pair_steps` says and the asking
/// stopped where it should: at the first yes (`found`), or after the last
/// pair, the last shape on the left against the last on the right.
pub open spec fn pair_trace(
    old: GrandShapeContentSummaryAtWork,
    mid: GrandShapeContentSummaryAtWork,
    meets: Seq<ComputableShapeKey>,
    joins: Seq<ComputableShapeKey>,
    found: bool,
    ss: Seq<GrandShapeContentSummaryAtWork>,
    rs: Seq<IsSubShapeResult>,
    ps: Seq<(int, int)>,
) -> bool {
    &&& pair_steps(old, mid, meets, joins, ss, rs, ps)
    &&& found == (rs.len() > 0 && rs.last() == IsSubShapeResult::True)
    &&& !found ==> rs.len() > 0 && ps.last() == (meets.len() - 1, joins.len() - 1)
}

/// Whether every shape of `meets` was asked, from `old` to `mid`, to be a
/// subshape of every shape of `joins`, row by row, stopping at the first
/// yes; `found` says whether a yes came.
pub open spec fn pairs_asked(
    old: GrandShapeContentSummaryAtWork,
    mid: GrandShapeContentSummaryAtWork,
    meets: Seq<ComputableShapeKey>,
    joins: Seq<ComputableShapeKey>,
    found: bool,
) -> bool {
    exists|ss: Seq<GrandShapeContentSummaryAtWork>, rs: Seq<IsSubShapeResult>, ps: Seq<(int, int)>| #[trigger]
        pair_trace(old, mid, meets, joins, found, ss, rs, ps)
}

/// Whether shape `k` of `s` is neither unresolved, a union nor an
/// intersection.
pub open spec fn plain_shape(s: GrandShapeContentSummaryAtWork, k: usize) -> bool {
    let f = form_of(s.shapes()[k as int].gut);
    f != ShapeForm::Unresolved && f != ShapeForm::Union && f != ShapeForm::Intersection
}

/// Whether every shape of `meets` and of `joins` is plain in `s` (see
/// `plain_shape`).
pub open spec fn plain_lists(s: GrandShapeContentSummaryAtWork, meets: Seq<ComputableShapeKey>, joins: Seq<ComputableShapeKey>) -> bool {
    &&& forall|i: int| 0 <= i < meets.len() ==> #[trigger] plain_shape(s, meets[i].0)
    &&& forall|j: int| 0 <= j < joins.len() ==> #[trigger] plain_shape(s, joins[j].0)
}

/// Whether every shape of `ks` is elementary in `s`.
pub open spec fn all_elementary(s: GrandShapeContentSummaryAtWork, ks: Seq<ComputableShapeKey>) -> bool {
    forall|i: int| 0 <= i < ks.len() ==> form_of(#[trigger] s.shapes()[ks[i].0 as int].gut) == ShapeForm::Elementary
}

/// The elementary shapes of the shapes `ks` of `s`.
pub open spec fn guts(s: GrandShapeContentSummaryAtWork, ks: Seq<ComputableShapeKey>) -> Seq<ElementaryShape> {
    ks.map_values(|k: ComputableShapeKey| s.shapes()[k.0 as int].gut->Elementary_0.gut)
}

/// The meet of the elementary shapes `gs`, taken from the first on: each
/// next one replaces the meet so far only where that is `Any`.
pub open spec fn meet_gut(gs: Seq<ElementaryShape>) -> ElementaryShape
    decreases gs.len(),
{
    if gs.len() <= 1 {
        gs[0]
    } else {
        let m = meet_gut(gs.drop_last());
        if m == ElementaryShape::Any {
            gs.last()
        } else {
            m
        }
    }
}

/// The join of the elementary shapes `gs`, taken from the first on (see
/// `elementary_union`); none where two of them have no join.
pub open spec fn join_gut(gs: Seq<ElementaryShape>) -> Option<ElementaryShape>
    decreases gs.len(),
{
    if gs.len() == 0 {
        None
    } else if gs.len() == 1 {
        Some(gs[0])
    } else {
        match join_gut(gs.drop_last()) {
            None => None,
            Some(m) => match elementary_union(m, gs.last()) {
                None => None,
                Some((g, _)) => Some(g),
            },
        }
    }
}

/// Whether every shape of `ks` is `Empty` in `s`.
pub open spec fn all_empty_shapes(s: GrandShapeContentSummaryAtWork, ks: Seq<ComputableShapeKey>) -> bool {
    forall|i: int| 0 <= i < ks.len() ==> (#[trigger] s.shapes()[ks[i].0 as int]).is_empty_shape()
}

/// Whether every shape of `ks` is `Any` in `s`.
pub open spec fn all_any_shapes(s: GrandShapeContentSummaryAtWork, ks: Seq<ComputableShapeKey>) -> bool {
    forall|i: int| 0 <= i < ks.len() ==> (#[trigger] s.shapes()[ks[i].0 as int]).is_any_shape()
}

/// The answer to whether the meet of `meets` is below the join of
/// `joins` where all of them are plain (see `plain_lists`): yes where every
/// shape on the left is `Empty` or every shape on the right `Any`;
/// otherwise, where all are elementary, whether the meet of the left is a
/// subset of the join of the right (undecided where the join has none);
/// undecided where some shape is not elementary.
pub open spec fn plain_answer(s: GrandShapeContentSummaryAtWork, meets: Seq<ComputableShapeKey>, joins: Seq<ComputableShapeKey>) -> IsSubShapeResult {
    if all_empty_shapes(s, meets) || all_any_shapes(s, joins) {
        IsSubShapeResult::True
    } else if !(all_elementary(s, meets) && all_elementary(s, joins)) {
        IsSubShapeResult::Stuck
    } else {
        match join_gut(guts(s, joins)) {
            None => IsSubShapeResult::Stuck,
            Some(j) => if elementary_subset(meet_gut(guts(s, meets)), j) {
                IsSubShapeResult::True
            } else {
                IsSubShapeResult::False
            },
        }
    }
}

/// Whether some shape of `ks` is unresolved in `s`.
pub open spec fn any_unresolved(s: GrandShapeContentSummaryAtWork, ks: Seq<ComputableShapeKey>) -> bool {
    exists|i: int| 0 <= i < ks.len() && form_of(#[trigger] s.shapes()[ks[i].0 as int].gut) == ShapeForm::Unresolved
}

/// Whether the shapes of `meets` and `joins` include unresolved ones, and
/// every one of them was already replaced on this path (its parts are in
/// `buffer`), so that nothing is left to replace.
pub open spec fn nothing_to_realize(
    s: GrandShapeContentSummaryAtWork,
    meets: Seq<ComputableShapeKey>,
    joins: Seq<ComputableShapeKey>,
    buffer: Seq<UnresolvedPShapeGut>,
) -> bool {
    &&& any_unresolved(s, meets) || any_unresolved(s, joins)
    &&& forall|k: ComputableShapeKey| #![trigger s.shapes()[k.0 as int]]
        (meets.contains(k) || joins.contains(k)) && form_of(s.shapes()[k.0 as int].gut) == ShapeForm::Unresolved
            ==> exists|i: int| 0 <= i < buffer.len() && same_parts(#[trigger] buffer[i], s.shapes()[k.0 as int].gut->Unresolved_0.gut)
}

/// Whether an unresolved shape with parts `g` was replaced before on this
/// path, the replaced shapes' parts being `buffer`.
pub open spec fn buffered(buffer: Seq<UnresolvedPShapeGut>, g: UnresolvedPShapeGut) -> bool {
    exists|i: int| 0 <= i < buffer.len() && same_parts(#[trigger] buffer[i], g)
}

/// One shape `key` of a meet-join question taken from `s` to `s2`, the
/// replaced parts going from `b` to `b2`, giving the shape `out`: an
/// unresolved shape not replaced before on this path is replaced by what
/// it stands for (itself where nothing is found) and its parts recorded;
/// any other shape is kept.
pub open spec fn realize_step(
    s: GrandShapeContentSummaryAtWork,
    s2: GrandShapeContentSummaryAtWork,
    key: usize,
    b: Seq<UnresolvedPShapeGut>,
    b2: Seq<UnresolvedPShapeGut>,
    out: ComputableShapeKey,
) -> bool {
    let sh = s.shapes()[key as int];
    if form_of(sh.gut) == ShapeForm::Unresolved && !buffered(b, sh.gut->Unresolved_0.gut) {
        &&& b2.len() == b.len() + 1
        &&& b2.take(b.len() as int) == b
        &&& same_parts(b2[b.len() as int], sh.gut->Unresolved_0.gut)
        &&& exists|ro: Option<ComputableShapeKey>| #[trigger] realized(s, s2, key, ro) && out == match ro {
            Some(r) => r,
            None => ComputableShapeKey(key),
        }
    } else {
        &&& s2 == s
        &&& b2 == b
        &&& out.0 == key
    }
}

/// Whether the shapes `items` were taken in turn (see `realize_step`)
/// through the states `ss` and replaced parts `bs`, giving `outs`.
pub open spec fn realize_trace(
    items: Seq<ComputableShapeKey>,
    ss: Seq<GrandShapeContentSummaryAtWork>,
    bs: Seq<Seq<UnresolvedPShapeGut>>,
    outs: Seq<ComputableShapeKey>,
) -> bool {
    &&& ss.len() == outs.len() + 1
    &&& bs.len() == outs.len() + 1
    &&& outs.len() <= items.len()
    &&& forall|i: int| 0 <= i < outs.len() ==> #[trigger] realize_step(ss[i], ss[i + 1], items[i].0, bs[i], bs[i + 1], outs[i])
}

/// Whether the shapes of `meets` and then of `joins`, taken in turn from
/// `mid` with the replaced parts `buffer` (see `realize_step`), give the
/// shapes `lefts` and `rights`, leaving `mid2` and the replaced parts `b2`.
pub open spec fn realized_lists(
    mid: GrandShapeContentSummaryAtWork,
    meets: Seq<ComputableShapeKey>,
    joins: Seq<ComputableShapeKey>,
    buffer: Seq<UnresolvedPShapeGut>,
    mid2: GrandShapeContentSummaryAtWork,
    lefts: Seq<ComputableShapeKey>,
    rights: Seq<ComputableShapeKey>,
    b2: Seq<UnresolvedPShapeGut>,
) -> bool {
    exists|ss: Seq<GrandShapeContentSummaryAtWork>, bs: Seq<Seq<UnresolvedPShapeGut>>| {
        &&& #[trigger] realize_trace(meets + joins, ss, bs, lefts + rights)
        &&& lefts.len() == meets.len()
        &&& rights.len() == joins.len()
        &&& ss[0] == mid
        &&& bs[0] == buffer
        &&& ss.last() == mid2
        &&& bs.last() == b2
    }
}

/// Whether the meet of `meets` is below the join of `joins` where all are
/// elementary in `s`: whether the meet of the left is a subset of the
/// join of the right, undecided where the join has none or a shape is not
/// elementary.
pub open spec fn elementary_answer(s: GrandShapeContentSummaryAtWork, meets: Seq<ComputableShapeKey>, joins: Seq<ComputableShapeKey>) -> IsSubShapeResult {
    if !(all_elementary(s, meets) && all_elementary(s, joins)) {
        IsSubShapeResult::Stuck
    } else {
        match join_gut(guts(s, joins)) {
            None => IsSubShapeResult::Stuck,
            Some(j) => if elementary_subset(meet_gut(guts(s, meets)), j) {
                IsSubShapeResult::True
            } else {
                IsSubShapeResult::False
            },
        }
    }
}

/// The worse of two answers, as `both` gives it.
pub open spec fn both_spec(a: IsSubShapeResult, b: IsSubShapeResult) -> IsSubShapeResult {
    if rank(a) >= rank(b) {
        a
    } else {
        b
    }
}

/// A name for the state `s` and answer `r` reached by a question, for the
/// prover to find them by; it holds of every pair.
pub open spec fn reached(s: GrandShapeContentSummaryAtWork, r: IsSubShapeResult) -> bool {
    true
}

/// Whether the unresolved-shape lists `a` and `b` have the same parts,
/// entry by entry.
pub open spec fn same_buffers(a: Seq<UnresolvedPShapeGut>, b: Seq<UnresolvedPShapeGut>) -> bool {
    &&& a.len() == b.len()
    &&& forall|i: int| 0 <= i < a.len() ==> same_parts(#[trigger] a[i], b[i])
}

/// Whether some shape of `ks` has the form `f` in `s`.
pub open spec fn has_form(s: GrandShapeContentSummaryAtWork, ks: Seq<ComputableShapeKey>, f: ShapeForm) -> bool {
    exists|k: int| 0 <= k < ks.len() && form_of(#[trigger] s.shapes()[ks[k].0 as int].gut) == f
}

/// Whether the `k`-th shape of `ks` is the first of form `f` in `s`.
pub open spec fn first_of_form(s: GrandShapeContentSummaryAtWork, ks: Seq<ComputableShapeKey>, f: ShapeForm, k: int) -> bool {
    &&& 0 <= k < ks.len()
    &&& form_of(s.shapes()[ks[k].0 as int].gut) == f
    &&& forall|j: int| 0 <= j < k ==> form_of(#[trigger] s.shapes()[ks[j].0 as int].gut) != f
}

/// How a meet-join question goes on from `mid` to `new` once its
/// unresolved shapes were replaced (not every shape on the left `Empty`
/// nor every one on the right `Any`): the first union on the left splits
/// it in two questions, with each of its sides in its place, that must
/// both hold (the second not asked where the first is no);
/// else the first intersection on the left is replaced by its two sides;
/// else the first union on the right by its two sides; else the first
/// intersection on the right splits it as a union on the left does.  Each
/// new question is asked at one more cost (see `meet_join_facts`); where a
/// side is not stored the answer is undecided.  Without union or
/// intersection, the meet is compared with the join (see
/// `elementary_answer`).
pub open spec fn split_facts(
    mid: GrandShapeContentSummaryAtWork,
    new: GrandShapeContentSummaryAtWork,
    meets: Seq<ComputableShapeKey>,
    joins: Seq<ComputableShapeKey>,
    buffer: Seq<UnresolvedPShapeGut>,
    cost: usize,
    res: IsSubShapeResult,
) -> bool
    decreases usize::MAX - cost, 0nat,
{
    if cost >= usize::MAX {
        true
    } else {
        let c1 = (cost + 1) as usize;
        let n = mid.shapes().len();
        if has_form(mid, meets, ShapeForm::Union) {
            let k = choose|k: int| first_of_form(mid, meets, ShapeForm::Union, k);
            let a = parts_of(mid.shapes()[meets[k].0 as int].gut)[0];
            let b = parts_of(mid.shapes()[meets[k].0 as int].gut)[1];
            if !(a.0 < n && b.0 < n) {
                res == IsSubShapeResult::Stuck && new == mid
            } else {
                exists|s1: GrandShapeContentSummaryAtWork, r1: IsSubShapeResult, b1: Seq<UnresolvedPShapeGut>|
                    #![trigger reached(s1, r1), same_buffers(b1, buffer)]
                {
                    &&& same_buffers(b1, buffer)
                    &&& meet_join_facts(mid, s1, meets.update(k, a), joins, b1, c1, r1)
                    &&& r1 == IsSubShapeResult::False ==> res == r1 && new == s1
                    &&& r1 != IsSubShapeResult::False ==> exists|r2: IsSubShapeResult| #![trigger reached(new, r2)] meet_join_facts(
                        s1,
                        new,
                        meets.update(k, b),
                        joins,
                        buffer,
                        c1,
                        r2,
                    ) && res == worse(r1, r2)
                }
            }
        } else if has_form(mid, meets, ShapeForm::Intersection) {
            let k = choose|k: int| first_of_form(mid, meets, ShapeForm::Intersection, k);
            let a = parts_of(mid.shapes()[meets[k].0 as int].gut)[0];
            let b = parts_of(mid.shapes()[meets[k].0 as int].gut)[1];
            if !(a.0 < n && b.0 < n) {
                res == IsSubShapeResult::Stuck && new == mid
            } else {
                meet_join_facts(mid, new, meets.take(k) + seq![a, b] + meets.skip(k + 1), joins, buffer, c1, res)
            }
        } else if has_form(mid, joins, ShapeForm::Union) {
            let k = choose|k: int| first_of_form(mid, joins, ShapeForm::Union, k);
            let a = parts_of(mid.shapes()[joins[k].0 as int].gut)[0];
            let b = parts_of(mid.shapes()[joins[k].0 as int].gut)[1];
            if !(a.0 < n && b.0 < n) {
                res == IsSubShapeResult::Stuck && new == mid
            } else {
                meet_join_facts(mid, new, meets, joins.take(k) + seq![a, b] + joins.skip(k + 1), buffer, c1, res)
            }
        } else if has_form(mid, joins, ShapeForm::Intersection) {
            let k = choose|k: int| first_of_form(mid, joins, ShapeForm::Intersection, k);
            let a = parts_of(mid.shapes()[joins[k].0 as int].gut)[0];
            let b = parts_of(mid.shapes()[joins[k].0 as int].gut)[1];
            if !(a.0 < n && b.0 < n) {
                res == IsSubShapeResult::Stuck && new == mid
            } else {
                exists|s1: GrandShapeContentSummaryAtWork, r1: IsSubShapeResult, b1: Seq<UnresolvedPShapeGut>|
                    #![trigger reached(s1, r1), same_buffers(b1, buffer)]
                {
                    &&& same_buffers(b1, buffer)
                    &&& meet_join_facts(mid, s1, meets, joins.update(k, a), b1, c1, r1)
                    &&& r1 == IsSubShapeResult::False ==> res == r1 && new == s1
                    &&& r1 != IsSubShapeResult::False ==> exists|r2: IsSubShapeResult| #![trigger reached(new, r2)] meet_join_facts(
                        s1,
                        new,
                        meets,
                        joins.update(k, b),
                        buffer,
                        c1,
                        r2,
                    ) && res == worse(r1, r2)
                }
            }
        } else {
            res == elementary_answer(mid, meets, joins) && new == mid
        }
    }
}

/// What the meet-join question (whether the meet of `meets` is below the
/// join of `joins`, with the shapes in `buffer` already replaced on this
/// path, at cost `cost`) answers, from `old` to `new` (see
/// `left_meet_right_join_in_computable_shape_is_subshape`): too costly past
/// `SUBSHAPE_MAX_COST`; one shape on each side an ordinary question;
/// otherwise the pairs asked row by row (see `pairs_asked`), a yes
/// answering yes, and where none came: the unresolved shapes not
/// replaced before on this path are replaced (see `realized_lists`); where
/// there were unresolved shapes but none newly replaced, undecided; else
/// yes where every shape on the left is `Empty` or every one on the right
/// `Any`, and otherwise as `split_facts` says of the replaced lists.  Where
/// all shapes are plain this comes to `plain_answer`, and where nothing is
/// left to replace to undecided.
pub open spec fn meet_join_facts(
    old: GrandShapeContentSummaryAtWork,
    new: GrandShapeContentSummaryAtWork,
    meets: Seq<ComputableShapeKey>,
    joins: Seq<ComputableShapeKey>,
    buffer: Seq<UnresolvedPShapeGut>,
    cost: usize,
    res: IsSubShapeResult,
) -> bool
    decreases usize::MAX - cost, 1nat,
{
    &&& new.progressed_from(old)
    &&& cost > SUBSHAPE_MAX_COST ==> res == IsSubShapeResult::OverCost && new == old
    &&& cost <= SUBSHAPE_MAX_COST && meets.len() == 1 && joins.len() == 1 ==> answer_facts(old, new, meets[0].0, joins[0].0, res)
    &&& cost <= SUBSHAPE_MAX_COST && some_pair_settled(old, meets, joins) ==> res == IsSubShapeResult::True
    &&& cost <= SUBSHAPE_MAX_COST && !(meets.len() == 1 && joins.len() == 1) ==> exists|
        mid: GrandShapeContentSummaryAtWork,
        found: bool,
    | {
        &&& #[trigger] pairs_asked(old, mid, meets, joins, found)
        &&& new.progressed_from(mid)
        &&& found ==> res == IsSubShapeResult::True && new == mid
        &&& !found && plain_lists(mid, meets, joins) ==> res == plain_answer(mid, meets, joins) && new == mid
        &&& !found && nothing_to_realize(mid, meets, joins, buffer) ==> res == IsSubShapeResult::Stuck && new == mid
        &&& !found ==> exists|
            mid2: GrandShapeContentSummaryAtWork,
            lefts: Seq<ComputableShapeKey>,
            rights: Seq<ComputableShapeKey>,
            b2: Seq<UnresolvedPShapeGut>,
        | {
            &&& #[trigger] realized_lists(mid, meets, joins, buffer, mid2, lefts, rights, b2)
            &&& new.progressed_from(mid2)
            &&& any_unresolved(mid, meets + joins) && b2.len() == buffer.len() ==> res == IsSubShapeResult::Stuck && new
                == mid2
            &&& !(any_unresolved(mid, meets + joins) && b2.len() == buffer.len()) ==> if all_empty_shapes(mid2, lefts)
                || all_any_shapes(mid2, rights) {
                res == IsSubShapeResult::True && new == mid2
            } else {
                split_facts(mid2, new, lefts, rights, b2, cost, res)
            }
        }
    }
}

/// A join that fails on a first part fails on the whole.
proof fn lemma_join_none(gs: Seq<ElementaryShape>, k: int)
    requires
        1 <= k <= gs.len(),
        join_gut(gs.take(k)) is None,
    ensures
        join_gut(gs) is None,
    decreases gs.len() - k,
{
    if k < gs.len() {
        assert(gs.take(k + 1).drop_last() =~= gs.take(k));
        lemma_join_none(gs, k + 1);
    } else {
        assert(gs.take(k) =~= gs);
    }
}

/// A question settled yes before some progress is answered yes after it.
proof fn lemma_settled_answer(
    s0: GrandShapeContentSummaryAtWork,
    st: GrandShapeContentSummaryAtWork,
    s1: GrandShapeContentSummaryAtWork,
    a: usize,
    b: usize,
    r: IsSubShapeResult,
)
    requires
        settled_below(s0, a, b),
        st.progressed_from(s0),
        a < s0.shapes().len(),
        b < s0.shapes().len(),
        answer_facts(st, s1, a, b, r),
    ensures
        r == IsSubShapeResult::True,
{
    lemma_shapes_kept(s0, st, a);
    lemma_shapes_kept(s0, st, b);
}

/// A shape stored before progress is stored, unchanged, after it.
proof fn lemma_shapes_kept(a: GrandShapeContentSummaryAtWork, b: GrandShapeContentSummaryAtWork, k: usize)
    requires
        b.progressed_from(a),
        k < a.shapes().len(),
    ensures
        k < b.shapes().len(),
        b.shapes()[k as int] == a.shapes()[k as int],
{
    assert(b.shapes().take(a.shapes().len() as int)[k as int] == b.shapes()[k as int]);
}

/// A ready summary has progressed from itself.
pub proof fn lemma_progress_refl(s: GrandShapeContentSummaryAtWork)
    requires
        s.ready(),
    ensures
        s.progressed_from(s),
{
    lemma_grown_refl(s);
}

/// Progress composes.
pub proof fn lemma_progress_trans(a: GrandShapeContentSummaryAtWork, b: GrandShapeContentSummaryAtWork, c: GrandShapeContentSummaryAtWork)
    requires
        b.progressed_from(a),
        c.progressed_from(b),
    ensures
        c.progressed_from(a),
{
    lemma_grown_trans(a, b, c);
}

/// Growing with the answers untouched is progress.
pub proof fn lemma_progress_grown(a: GrandShapeContentSummaryAtWork, b: GrandShapeContentSummaryAtWork)
    requires
        b.ready(),
        b.grown_from(a),
        b.gsc_summary.sub_shape_table_buffer == a.gsc_summary.sub_shape_table_buffer,
    ensures
        b.progressed_from(a),
{
}

/// Changing only the answers keeps a summary grown from itself.
pub proof fn lemma_same_but_answers(a: GrandShapeContentSummaryAtWork, b: GrandShapeContentSummaryAtWork)
    requires
        b.same_but_answers(a),
    ensures
        b.grown_from(a),
        b.ready() == a.ready(),
{
    assert(b.shapes() == a.shapes());
    lemma_grown_refl(a);
}

/// What an unresolved shape is made of, copied out of the summary.
enum UnresolvedParts {
    Specified(Route, Vec<ComputableShapeKey>),
    GenericVar(String, GenericParamDescriptionKey),
}

/// Where a found replacement `found` (in `mid`) is placed, in `new`, at
/// the position `pos`: a new last shape repositioned from it, or nothing
/// where none was found.
pub open spec fn placed(
    mid: GrandShapeContentSummaryAtWork,
    new: GrandShapeContentSummaryAtWork,
    found: Option<ComputableShapeKey>,
    pos: Option<crate::parsed::PositionView>,
    res: Option<ComputableShapeKey>,
) -> bool {
    match found {
        None => res is None && new == mid,
        Some(k) => res matches Some(r) && r.0 == new.shapes().len() - 1 && repositioned(new.shapes(), r.0 as int, k.0 as int, pos)
            && new.gsc_summary.computable_shape_table == mid.gsc_summary.computable_shape_table,
    }
}

/// What replacing the unresolved shape `key` by what it stands for gives,
/// from `old` to `new` (see `realize_shape`): for a route with arguments,
/// all of them stored, the shape its definition gives with the arguments
/// put in; for a generic variable what its parameter allows; each placed
/// at the unresolved shape's position.  Nothing for a shape that is not
/// unresolved or has an argument not stored.
pub open spec fn realized(
    old: GrandShapeContentSummaryAtWork,
    new: GrandShapeContentSummaryAtWork,
    key: usize,
    res: Option<ComputableShapeKey>,
) -> bool {
    let s = old.shapes()[key as int];
    let pos = pos_view(s.position);
    match s.gut {
        ComputableShapeGut::Unresolved(u) => match u.gut {
            UnresolvedPShapeGut::Specified(r, args) => if !(forall|i: int| 0 <= i < args@.len() ==> (#[trigger] args@[i]).0
                < old.shapes().len()) {
                res is None && new == old
            } else {
                exists|mid: GrandShapeContentSummaryAtWork, found: Option<ComputableShapeKey>| #[trigger]
                    simple_substituted(old, mid, r@, args@, found) && placed(mid, new, found, pos, res)
            },
            UnresolvedPShapeGut::GenericVar(n, gk) => exists|mid: GrandShapeContentSummaryAtWork, found: Option<ComputableShapeKey>|
                #[trigger] generic_substituted(old, mid, n@, gk, found) && placed(mid, new, found, pos, res),
        },
        _ => res is None && new == old,
    }
}

impl<'a> GrandShapeContentSummaryAtWork<'a> {
    /// Whether `k` is the key of a stored computable shape.
    fn stored(&self, k: ComputableShapeKey) -> (res: bool)
        ensures
            res == (k.0 < self.shapes().len()),
    {
        k.0 < self.gsc_summary.kv_tables.computable_shape_table.len()
    }

    /// Replaces an unresolved shape by what it stands for, moved to its
    /// position: a route with generic arguments by the shape its
    /// definition gives, a generic variable by what its parameter allows.
    /// `None` where the shape is not unresolved, one of its arguments is
    /// not stored, or the replacement cannot be found.
    fn realize_shape(&mut self, key: ComputableShapeKey) -> (res: Option<ComputableShapeKey>)
        requires
            old(self).ready(),
            key.0 < old(self).shapes().len(),
        ensures
            final(self).progressed_from(*old(self)),
            final(self).gsc_summary.sub_shape_table_buffer == old(self).gsc_summary.sub_shape_table_buffer,
            match res {
                Some(k) => k.0 < final(self).shapes().len(),
                None => true,
            },
            realized(*old(self), *final(self), key.0, res),
    {
        proof {
            lemma_progress_refl(*self);
        }
        let parts = match &self.gsc_summary.kv_tables.computable_shape_table[key.0].gut {
            ComputableShapeGut::Unresolved(u) => match &u.gut {
                UnresolvedPShapeGut::Specified(r, args) => {
                    let mut v: Vec<ComputableShapeKey> = Vec::new();
                    let mut i: usize = 0;
                    while i < args.len()
                        invariant
                            i <= args@.len(),
                            v@ == args@.take(i as int),
                        decreases args@.len() - i,
                    {
                        v.push(args[i]);
                        proof {
                            assert(args@.take(i + 1) =~= args@.take(i as int).push(args@[i as int]));
                        }
                        i = i + 1;
                    }
                    proof {
                        assert(args@.take(i as int) =~= args@);
                    }
                    UnresolvedParts::Specified(r.duplicate(), v)
                },
                UnresolvedPShapeGut::GenericVar(v, gk) => UnresolvedParts::GenericVar(v.clone(), *gk),
            },
            _ => {
                return None;
            },
        };
        let position = copy_position(&self.gsc_summary.kv_tables.computable_shape_table[key.0].position);
        let ghost s0 = *self;
        let found = match parts {
            UnresolvedParts::Specified(route, args) => {
                let mut i: usize = 0;
                while i < args.len()
                    invariant
                        i <= args@.len(),
                        *self == s0,
                        s0 == *old(self),
                        s0.shapes()[key.0 as int].gut is Unresolved,
                        s0.shapes()[key.0 as int].gut->Unresolved_0.gut is Specified,
                        args@ == s0.shapes()[key.0 as int].gut->Unresolved_0.gut->Specified_1@,
                        s0.progressed_from(*old(self)),
                        s0.gsc_summary.sub_shape_table_buffer == old(self).gsc_summary.sub_shape_table_buffer,
                        forall|j: int| 0 <= j < i ==> (#[trigger] args@[j]).0 < self.shapes().len(),
                    decreases args@.len() - i,
                {
                    if !self.stored(args[i]) {
                        proof {
                            assert(!(args@[i as int].0 < s0.shapes().len()));
                        }
                        return None;
                    }
                    i = i + 1;
                }
                self.substitute_simple_shape(route, &args)
            },
            UnresolvedParts::GenericVar(name, gk) => self.substitute_generic(name, gk),
        };
        let ghost s1 = *self;
        match found {
            Some(k) => {
                let r = self.substitute_position(k, position);
                proof {
                    lemma_grown_trans(s0, s1, *self);
                    lemma_grown_trans(*old(self), s0, *self);
                    assert(self.keys_valid());
                    assert(placed(s1, *self, found, pos_view(s0.shapes()[key.0 as int].position), Some(r)));
                }
                Some(r)
            },
            None => {
                proof {
                    assert(placed(s1, *self, found, pos_view(s0.shapes()[key.0 as int].position), None));
                }
                None
            },
        }
    }
}

/// The form of a computable shape.
#[derive(Clone, Copy, PartialEq, Eq, Structural)]
pub enum ShapeForm {
    Elementary,
    Unresolved,
    ParenSingle,
    Tuple,
    Array,
    Mapping,
    Struct,
    Function,
    Union,
    Intersection,
}

/// The form of `g`.
pub open spec fn form_of(g: ComputableShapeGut) -> ShapeForm {
    match g {
        ComputableShapeGut::Elementary(_) => ShapeForm::Elementary,
        ComputableShapeGut::Unresolved(_) => ShapeForm::Unresolved,
        ComputableShapeGut::ParenSingle(_) => ShapeForm::ParenSingle,
        ComputableShapeGut::Tuple(_) => ShapeForm::Tuple,
        ComputableShapeGut::Array(_) => ShapeForm::Array,
        ComputableShapeGut::Mapping(_, _) => ShapeForm::Mapping,
        ComputableShapeGut::Struct(_) => ShapeForm::Struct,
        ComputableShapeGut::Function(_, _) => ShapeForm::Function,
        ComputableShapeGut::Union(_, _) => ShapeForm::Union,
        ComputableShapeGut::Intersection(_, _) => ShapeForm::Intersection,
    }
}

/// The parts of `g`, in order (a function's result last, a struct's
/// field shapes in field order).
pub open spec fn parts_of(g: ComputableShapeGut) -> Seq<ComputableShapeKey> {
    match g {
        ComputableShapeGut::Elementary(_) => Seq::empty(),
        ComputableShapeGut::Unresolved(_) => Seq::empty(),
        ComputableShapeGut::ParenSingle(a) => seq![a],
        ComputableShapeGut::Tuple(v) => v@,
        ComputableShapeGut::Array(a) => seq![a],
        ComputableShapeGut::Mapping(a, b) => seq![a, b],
        ComputableShapeGut::Struct(m) => m.values(),
        ComputableShapeGut::Function(v, r) => v@.push(r),
        ComputableShapeGut::Union(a, b) => seq![a, b],
        ComputableShapeGut::Intersection(a, b) => seq![a, b],
    }
}

/// Whether two shapes of forms `f1` and `f2`, neither unresolved, a union
/// nor an intersection, can be compared part by part: both elementary, or
/// both tuples, arrays, mappings, structs or functions.
pub open spec fn comparable_forms(f1: ShapeForm, f2: ShapeForm) -> bool {
    f1 == f2 && (f1 == ShapeForm::Elementary || f1 == ShapeForm::Tuple || f1 == ShapeForm::Array || f1 == ShapeForm::Mapping
        || f1 == ShapeForm::Struct || f1 == ShapeForm::Function)
}

/// The form of `g`.
fn shape_form(g: &ComputableShapeGut) -> (res: ShapeForm)
    ensures
        res == form_of(*g),
{
    match g {
        ComputableShapeGut::Elementary(_) => ShapeForm::Elementary,
        ComputableShapeGut::Unresolved(_) => ShapeForm::Unresolved,
        ComputableShapeGut::ParenSingle(_) => ShapeForm::ParenSingle,
        ComputableShapeGut::Tuple(_) => ShapeForm::Tuple,
        ComputableShapeGut::Array(_) => ShapeForm::Array,
        ComputableShapeGut::Mapping(_, _) => ShapeForm::Mapping,
        ComputableShapeGut::Struct(_) => ShapeForm::Struct,
        ComputableShapeGut::Function(_, _) => ShapeForm::Function,
        ComputableShapeGut::Union(_, _) => ShapeForm::Union,
        ComputableShapeGut::Intersection(_, _) => ShapeForm::Intersection,
    }
}

/// A copy of the parts of `g`.
fn shape_parts_copy(g: &ComputableShapeGut) -> (res: Vec<ComputableShapeKey>)
    ensures
        res@ == parts_of(*g),
{
    let mut res: Vec<ComputableShapeKey> = Vec::new();
    match g {
        ComputableShapeGut::ParenSingle(a) => {
            res.push(*a);
        },
        ComputableShapeGut::Array(a) => {
            res.push(*a);
        },
        ComputableShapeGut::Mapping(a, b) | ComputableShapeGut::Union(a, b) | ComputableShapeGut::Intersection(a, b) => {
            res.push(*a);
            res.push(*b);
        },
        ComputableShapeGut::Tuple(v) => {
            let mut i: usize = 0;
            while i < v.len()
                invariant
                    i <= v@.len(),
                    res@ == v@.take(i as int),
                decreases v@.len() - i,
            {
                res.push(v[i]);
                proof {
                    assert(v@.take(i + 1) =~= v@.take(i as int).push(v@[i as int]));
                }
                i = i + 1;
            }
            proof {
                assert(v@.take(v@.len() as int) =~= v@);
            }
        },
        ComputableShapeGut::Function(v, r) => {
            let mut i: usize = 0;
            while i < v.len()
                invariant
                    i <= v@.len(),
                    res@ == v@.take(i as int),
                decreases v@.len() - i,
            {
                res.push(v[i]);
                proof {
                    assert(v@.take(i + 1) =~= v@.take(i as int).push(v@[i as int]));
                }
                i = i + 1;
            }
            proof {
                assert(v@.take(v@.len() as int) =~= v@);
            }
            res.push(*r);
        },
        ComputableShapeGut::Struct(m) => {
            proof {
                m.lemma_lengths();
            }
            let mut i: usize = 0;
            while i < m.len()
                invariant
                    i <= m.size(),
                    m.values().len() == m.size(),
                    res@ == m.values().take(i as int),
                decreases m.size() - i,
            {
                res.push(*m.value_at(i));
                proof {
                    assert(m.values().take(i + 1) =~= m.values().take(i as int).push(m.values()[i as int]));
                }
                i = i + 1;
            }
            proof {
                assert(m.values().take(m.size() as int) =~= m.values());
            }
        },
        _ => {},
    }
    proof {
        match *g {
            ComputableShapeGut::Elementary(_) => assert(res@ =~= parts_of(*g)),
            ComputableShapeGut::Unresolved(_) => assert(res@ =~= parts_of(*g)),
            ComputableShapeGut::ParenSingle(_) => assert(res@ =~= parts_of(*g)),
            ComputableShapeGut::Array(_) => assert(res@ =~= parts_of(*g)),
            ComputableShapeGut::Mapping(_, _) => assert(res@ =~= parts_of(*g)),
            ComputableShapeGut::Union(_, _) => assert(res@ =~= parts_of(*g)),
            ComputableShapeGut::Intersection(_, _) => assert(res@ =~= parts_of(*g)),
            _ => {},
        }
    }
    res
}

/// The field names of a struct shape, in field order (none for other
/// shapes).
fn struct_field_names(g: &ComputableShapeGut) -> (res: Vec<String>)
    ensures
        g is Struct ==> res@.map_values(|s: String| s@) == g->Struct_0.keys(),
{
    let mut res: Vec<String> = Vec::new();
    match g {
        ComputableShapeGut::Struct(m) => {
            proof {
                m.lemma_lengths();
            }
            let mut i: usize = 0;
            while i < m.len()
                invariant
                    i <= m.size(),
                    m.keys().len() == m.size(),
                    res@.map_values(|s: String| s@) == m.keys().take(i as int),
                decreases m.size() - i,
            {
                res.push(m.key_at(i).clone());
                proof {
                    assert(m.keys().take(i + 1) =~= m.keys().take(i as int).push(m.keys()[i as int]));
                    assert(res@.map_values(|s: String| s@) =~= m.keys().take(i + 1));
                }
                i = i + 1;
            }
            proof {
                assert(m.keys().take(m.size() as int) =~= m.keys());
            }
        },
        _ => {},
    }
    res
}

impl<'a> GrandShapeContentSummaryAtWork<'a> {
    /// Records answer `r` to the question whether `sub` is a subshape of
    /// `sup`, dropping the assumption made for it.
    fn record_answer(&mut self, sub: ComputableShapeKey, sup: ComputableShapeKey, r: IsSubShapeResult)
        requires
            old(self).gsc_summary.sub_shape_table_buffer.assumption.has(sup.0),
        ensures
            final(self).same_but_answers(*old(self)),
            final(self).assumed_pairs() == old(self).assumed_pairs().remove((sub.0, sup.0)),
            final(self).answer_recorded(sub.0, sup.0, r),
            pairs(&old(self).gsc_summary.sub_shape_table_buffer.proven_true).subset_of(
                pairs(&final(self).gsc_summary.sub_shape_table_buffer.proven_true)),
            pairs(&old(self).gsc_summary.sub_shape_table_buffer.proven_false).subset_of(
                pairs(&final(self).gsc_summary.sub_shape_table_buffer.proven_false)),
            pairs(&old(self).gsc_summary.sub_shape_table_buffer.proven_stuck).subset_of(
                pairs(&final(self).gsc_summary.sub_shape_table_buffer.proven_stuck)),
            pairs(&old(self).gsc_summary.sub_shape_table_buffer.proven_overcost).subset_of(
                pairs(&final(self).gsc_summary.sub_shape_table_buffer.proven_overcost)),
            forall|k: usize| #[trigger] final(self).gsc_summary.sub_shape_table_buffer.assumption.has(k)
                == old(self).gsc_summary.sub_shape_table_buffer.assumption.has(k),
    {
        match r {
            IsSubShapeResult::True => self.proven_true(sub, sup),
            IsSubShapeResult::False => self.proven_false(sub, sup),
            IsSubShapeResult::Stuck => self.proven_stuck(sub, sup),
            IsSubShapeResult::OverCost => self.proven_overcost(sub, sup),
        }
    }
}

/// What a subshape question is known to come
/// out as, from the shapes asked about: yes where the subshape is `Empty`
/// or the supershape `Any`; for two unresolved shapes the recorded answer,
/// or else the answer found, which is then recorded; for two elementary
/// shapes whether the first is a subset of the second; no for shapes of
/// forms that cannot be compared (neither unresolved, a union nor an
/// intersection), and for tuples or functions with different numbers of
/// parts.
pub open spec fn answer_facts(
    old: GrandShapeContentSummaryAtWork,
    new: GrandShapeContentSummaryAtWork,
    sub: usize,
    sup: usize,
    res: IsSubShapeResult,
) -> bool {
    let s1 = old.shapes()[sub as int];
    let s2 = old.shapes()[sup as int];
    let f1 = form_of(s1.gut);
    let f2 = form_of(s2.gut);
    if s1.is_empty_shape() || s2.is_any_shape() {
        res == IsSubShapeResult::True
    } else if f1 == ShapeForm::Unresolved && f2 == ShapeForm::Unresolved {
        match old.recorded_answer(sub, sup) {
            Some(r) => res == r,
            None => new.answer_recorded(sub, sup, res),
        }
    } else if f1 == ShapeForm::Elementary && f2 == ShapeForm::Elementary {
        res == if elementary_subset(s1.gut->Elementary_0.gut, s2.gut->Elementary_0.gut) {
            IsSubShapeResult::True
        } else {
            IsSubShapeResult::False
        }
    } else if f1 != ShapeForm::Unresolved && f2 != ShapeForm::Unresolved && f1 != ShapeForm::Union && f2 != ShapeForm::Union
        && f1 != ShapeForm::Intersection && f2 != ShapeForm::Intersection && !comparable_forms(f1, f2) {
        res == IsSubShapeResult::False
    } else if (f1 == ShapeForm::Tuple && f2 == ShapeForm::Tuple || f1 == ShapeForm::Function && f2 == ShapeForm::Function)
        && parts_of(s1.gut).len() != parts_of(s2.gut).len() {
        res == IsSubShapeResult::False
    } else {
        true
    }
}

/// Whether two unresolved shapes have the same parts: the same route and
/// arguments, or the same generic variable of the same parameters.
pub open spec fn same_parts(a: UnresolvedPShapeGut, b: UnresolvedPShapeGut) -> bool {
    match (a, b) {
        (UnresolvedPShapeGut::Specified(r1, a1), UnresolvedPShapeGut::Specified(r2, a2)) => r1@ == r2@ && a1@ == a2@,
        (UnresolvedPShapeGut::GenericVar(n1, k1), UnresolvedPShapeGut::GenericVar(n2, k2)) => n1@ == n2@ && k1 == k2,
        _ => false,
    }
}

/// A copy of an unresolved shape's parts.
fn copy_unresolved(g: &UnresolvedPShapeGut) -> (res: UnresolvedPShapeGut)
    ensures
        same_parts(res, *g),
{
    match g {
        UnresolvedPShapeGut::Specified(r, args) => {
            let mut v: Vec<ComputableShapeKey> = Vec::new();
            let mut i: usize = 0;
            while i < args.len()
                invariant
                    i <= args@.len(),
                    v@ == args@.take(i as int),
                decreases args@.len() - i,
            {
                v.push(args[i]);
                proof {
                    assert(args@.take(i + 1) =~= args@.take(i as int).push(args@[i as int]));
                }
                i = i + 1;
            }
            proof {
                assert(args@.take(i as int) =~= args@);
            }
            UnresolvedPShapeGut::Specified(r.duplicate(), v)
        },
        UnresolvedPShapeGut::GenericVar(n, k) => UnresolvedPShapeGut::GenericVar(n.clone(), *k),
    }
}

/// A copy of a list of unresolved shapes' parts.
fn copy_unresolved_list(v: &Vec<UnresolvedPShapeGut>) -> (res: Vec<UnresolvedPShapeGut>)
    ensures
        res@.len() == v@.len(),
        forall|i: int| 0 <= i < v@.len() ==> same_parts(#[trigger] res@[i], v@[i]),
{
    let mut res: Vec<UnresolvedPShapeGut> = Vec::new();
    let mut i: usize = 0;
    while i < v.len()
        invariant
            i <= v@.len(),
            res@.len() == i,
            forall|j: int| 0 <= j < i ==> same_parts(#[trigger] res@[j], v@[j]),
        decreases v@.len() - i,
    {
        res.push(copy_unresolved(&v[i]));
        i = i + 1;
    }
    res
}

/// Whether two unresolved shapes have the same parts.
fn same_unresolved(a: &UnresolvedPShapeGut, b: &UnresolvedPShapeGut) -> (res: bool)
    ensures
        res == same_parts(*a, *b),
{
    match (a, b) {
        (UnresolvedPShapeGut::Specified(r1, a1), UnresolvedPShapeGut::Specified(r2, a2)) => {
            if !r1.same_as(r2) || a1.len() != a2.len() {
                return false;
            }
            let mut i: usize = 0;
            while i < a1.len()
                invariant
                    i <= a1@.len(),
                    a1@.len() == a2@.len(),
                    *a == UnresolvedPShapeGut::Specified(*r1, *a1),
                    *b == UnresolvedPShapeGut::Specified(*r2, *a2),
                    r1@ == r2@,
                    forall|j: int| 0 <= j < i ==> a1@[j] == a2@[j],
                decreases a1@.len() - i,
            {
                if a1[i].0 != a2[i].0 {
                    proof {
                        assert(a1@[i as int] != a2@[i as int]);
                        assert(a1@ != a2@);
                        assert(*a == UnresolvedPShapeGut::Specified(*r1, *a1));
                        assert(*b == UnresolvedPShapeGut::Specified(*r2, *a2));
                        assert(!same_parts(*a, *b));
                    }
                    return false;
                }
                i = i + 1;
            }
            proof {
                assert(a1@ =~= a2@);
            }
            true
        },
        (UnresolvedPShapeGut::GenericVar(n1, k1), UnresolvedPShapeGut::GenericVar(n2, k2)) => *n1 == *n2 && k1.0 == k2.0,
        _ => false,
    }
}

/// Whether `v` holds an unresolved shape with the same parts as `g`.
fn contains_unresolved(v: &Vec<UnresolvedPShapeGut>, g: &UnresolvedPShapeGut) -> (res: bool)
    ensures
        res == exists|i: int| 0 <= i < v@.len() && same_parts(#[trigger] v@[i], *g),
{
    let mut i: usize = 0;
    while i < v.len()
        invariant
            i <= v@.len(),
            forall|j: int| 0 <= j < i ==> !same_parts(#[trigger] v@[j], *g),
        decreases v@.len() - i,
    {
        if same_unresolved(&v[i], g) {
            return true;
        }
        i = i + 1;
    }
    false
}

/// `v` with the key at `i` replaced by `a`.
fn replaced(v: &Vec<ComputableShapeKey>, i: usize, a: ComputableShapeKey) -> (res: Vec<ComputableShapeKey>)
    requires
        i < v@.len(),
    ensures
        res@ == v@.update(i as int, a),
{
    let mut res: Vec<ComputableShapeKey> = Vec::new();
    let mut j: usize = 0;
    while j < v.len()
        invariant
            j <= v@.len(),
            i < v@.len(),
            res@ == v@.update(i as int, a).take(j as int),
        decreases v@.len() - j,
    {
        if j == i {
            res.push(a);
        } else {
            res.push(v[j]);
        }
        proof {
            assert(v@.update(i as int, a).take(j + 1) =~= v@.update(i as int, a).take(j as int).push(v@.update(i as int, a)[j as int]));
        }
        j = j + 1;
    }
    proof {
        assert(v@.update(i as int, a).take(v@.len() as int) =~= v@.update(i as int, a));
    }
    res
}

/// `v` with the key at `i` replaced by `a` and `b`, in that order.
fn spliced(v: &Vec<ComputableShapeKey>, i: usize, a: ComputableShapeKey, b: ComputableShapeKey) -> (res: Vec<ComputableShapeKey>)
    requires
        i < v@.len(),
    ensures
        res@ == v@.take(i as int) + seq![a, b] + v@.skip(i + 1),
{
    let mut res: Vec<ComputableShapeKey> = Vec::new();
    let mut j: usize = 0;
    while j < i
        invariant
            j <= i,
            i < v@.len(),
            res@ == v@.take(j as int),
        decreases i - j,
    {
        res.push(v[j]);
        proof {
            assert(v@.take(j + 1) =~= v@.take(j as int).push(v@[j as int]));
        }
        j = j + 1;
    }
    res.push(a);
    res.push(b);
    let n = v.len();
    let mut k: usize = i + 1;
    while k < v.len()
        invariant
            i < k <= v@.len(),
            res@ == v@.take(i as int) + seq![a, b] + v@.subrange(i + 1, k as int),
        decreases v@.len() - k,
    {
        res.push(v[k]);
        proof {
            assert(v@.subrange(i + 1, k + 1) =~= v@.subrange(i + 1, k as int).push(v@[k as int]));
            assert(v@.take(i as int) + seq![a, b] + v@.subrange(i + 1, k + 1)
                =~= (v@.take(i as int) + seq![a, b] + v@.subrange(i + 1, k as int)).push(v@[k as int]));
        }
        k = k + 1;
    }
    proof {
        assert(v@.subrange(i + 1, v@.len() as int) =~= v@.skip(i + 1));
    }
    res
}

/// Whether every key of `v` is stored in `t`.
pub open spec fn all_stored(t: Seq<crate::computable_shape::ComputableShape>, v: Seq<ComputableShapeKey>) -> bool {
    forall|i: int| 0 <= i < v.len() ==> (#[trigger] v[i]).0 < t.len()
}

/// The worse of two answers (see `both`).
pub open spec fn worse(a: IsSubShapeResult, b: IsSubShapeResult) -> IsSubShapeResult {
    if rank(a) >= rank(b) {
        a
    } else {
        b
    }
}

/// The better of two answers (see `either`).
pub open spec fn better(a: IsSubShapeResult, b: IsSubShapeResult) -> IsSubShapeResult {
    if rank(a) <= rank(b) {
        a
    } else {
        b
    }
}

/// The answer to questions that must all come out yes: the worst of
/// `rs`, yes where there is none.
pub open spec fn all_of(rs: Seq<IsSubShapeResult>) -> IsSubShapeResult
    decreases rs.len(),
{
    if rs.len() == 0 {
        IsSubShapeResult::True
    } else {
        worse(all_of(rs.drop_last()), rs.last())
    }
}

/// The answer to questions of which one must come out yes: the best of
/// `rs`, no where there is none.
pub open spec fn any_of(rs: Seq<IsSubShapeResult>) -> IsSubShapeResult
    decreases rs.len(),
{
    if rs.len() == 0 {
        IsSubShapeResult::False
    } else {
        better(any_of(rs.drop_last()), rs.last())
    }
}

/// Whether `r` is an answer to the question whether `sub` is a subshape of
/// `sup`, asked in `s0` and leaving `s1`: as `answer_facts` says where both
/// are stored, undecided with nothing changed otherwise.
pub open spec fn asked(s0: GrandShapeContentSummaryAtWork, s1: GrandShapeContentSummaryAtWork, sub: usize, sup: usize, r: IsSubShapeResult) -> bool {
    if sub < s0.shapes().len() && sup < s0.shapes().len() {
        answer_facts(s0, s1, sub, sup, r)
    } else {
        r == IsSubShapeResult::Stuck && s1 == s0
    }
}

/// Whether the questions `qs` were asked in turn, the first `rs.len()` of
/// them, through the summaries `ss`, with answers `rs`.
pub open spec fn answered_in_turn(ss: Seq<GrandShapeContentSummaryAtWork>, qs: Seq<(usize, usize)>, rs: Seq<IsSubShapeResult>) -> bool {
    &&& ss.len() == rs.len() + 1
    &&& rs.len() <= qs.len()
    &&& forall|i: int| 0 <= i < rs.len() ==> asked(ss[i], ss[i + 1], qs[i].0, qs[i].1, #[trigger] rs[i])
}

/// Whether `res` is the answer, from `old` to `new`, to the questions `qs`
/// that must all come out yes: they are asked in turn, stopping at the
/// first no, and the worst answer decides.
pub open spec fn all_asked(old: GrandShapeContentSummaryAtWork, new: GrandShapeContentSummaryAtWork, qs: Seq<(usize, usize)>, res: IsSubShapeResult) -> bool {
    exists|ss: Seq<GrandShapeContentSummaryAtWork>, rs: Seq<IsSubShapeResult>| {
        &&& #[trigger] answered_in_turn(ss, qs, rs)
        &&& ss[0] == old
        &&& ss.last() == new
        &&& res == all_of(rs)
        &&& (rs.len() == qs.len() || res == IsSubShapeResult::False)
    }
}

/// Whether `res` is the answer, from `old` to `new`, to the questions `qs`
/// of which one must come out yes: they are asked in turn, stopping at the
/// first yes, and the best answer decides.
pub open spec fn any_asked(old: GrandShapeContentSummaryAtWork, new: GrandShapeContentSummaryAtWork, qs: Seq<(usize, usize)>, res: IsSubShapeResult) -> bool {
    exists|ss: Seq<GrandShapeContentSummaryAtWork>, rs: Seq<IsSubShapeResult>| {
        &&& #[trigger] answered_in_turn(ss, qs, rs)
        &&& ss[0] == old
        &&& ss.last() == new
        &&& res == any_of(rs)
        &&& (rs.len() == qs.len() || res == IsSubShapeResult::True)
    }
}

/// The part questions of two tuples, arrays, mappings or functions with
/// as many parts: part against part in order, except that a function's
/// parameters are asked the other way round (the supershape's parameter
/// below the subshape's).
pub open spec fn part_questions(g1: ComputableShapeGut, g2: ComputableShapeGut) -> Seq<(usize, usize)> {
    let v1 = parts_of(g1);
    let v2 = parts_of(g2);
    Seq::new(
        v1.len(),
        |i: int| if form_of(g1) == ShapeForm::Function && i + 1 < v1.len() {
            (v2[i].0, v1[i].0)
        } else {
            (v1[i].0, v2[i].0)
        },
    )
}

/// The shape the subshape's struct gives the field named `n`: that of its
/// last field named `n` among the first `k`, or `any` where there is none.
pub open spec fn field_for(names1: Seq<Seq<char>>, vals1: Seq<ComputableShapeKey>, n: Seq<char>, any: usize, k: int) -> usize
    decreases k,
{
    if k <= 0 {
        any
    } else if names1[k - 1] == n {
        vals1[k - 1].0
    } else {
        field_for(names1, vals1, n, any, k - 1)
    }
}

/// The field questions of two structs: for each field of the supershape,
/// in order, whether the subshape's field of that name (`Any` where it has
/// none) is below it.
pub open spec fn struct_questions(s: GrandShapeContentSummaryAtWork, g1: ComputableShapeGut, g2: ComputableShapeGut) -> Seq<(usize, usize)> {
    let names1 = g1->Struct_0.keys();
    let vals1 = parts_of(g1);
    let names2 = g2->Struct_0.keys();
    let vals2 = parts_of(g2);
    let any = s.gsc_summary.ecs_key_table.at(ElementaryShape::Any).0;
    let n1 = if names1.len() <= vals1.len() { names1.len() } else { vals1.len() };
    let n2 = if names2.len() <= vals2.len() { names2.len() } else { vals2.len() };
    Seq::new(n2, |j: int| (field_for(names1, vals1, names2[j], any, n1 as int), vals2[j].0))
}

/// How the answer to a question on shapes made of parts comes from the
/// answers on their parts, asked from `old` to `new` at the given cost:
/// tuples, arrays, mappings and functions with as many parts, all part
/// questions (see `part_questions`); two structs, all field questions (see
/// `struct_questions`); a union on the left, both its sides below the
/// supershape; else a union on the right, the subshape below one of its
/// sides; else an intersection on the left, its two sides asked against the
/// supershape as a meet (see `meet_join_facts`); else an intersection on
/// the right, the subshape below both its sides.
pub open spec fn structural_facts(
    old: GrandShapeContentSummaryAtWork,
    new: GrandShapeContentSummaryAtWork,
    sub: usize,
    sup: usize,
    cost: usize,
    res: IsSubShapeResult,
) -> bool {
    let s1 = old.shapes()[sub as int];
    let s2 = old.shapes()[sup as int];
    let f1 = form_of(s1.gut);
    let f2 = form_of(s2.gut);
    if s1.is_empty_shape() || s2.is_any_shape() || f1 == ShapeForm::Unresolved || f2 == ShapeForm::Unresolved
        || (f1 == ShapeForm::Elementary && f2 == ShapeForm::Elementary) {
        true
    } else if f1 == f2 && (f1 == ShapeForm::Tuple || f1 == ShapeForm::Array || f1 == ShapeForm::Mapping || f1
        == ShapeForm::Function) {
        parts_of(s1.gut).len() == parts_of(s2.gut).len() ==> all_asked(old, new, part_questions(s1.gut, s2.gut), res)
    } else if f1 == ShapeForm::Struct && f2 == ShapeForm::Struct {
        all_asked(old, new, struct_questions(old, s1.gut, s2.gut), res)
    } else if f1 == ShapeForm::Union {
        all_asked(old, new, seq![(parts_of(s1.gut)[0].0, sup), (parts_of(s1.gut)[1].0, sup)], res)
    } else if f2 == ShapeForm::Union {
        any_asked(old, new, seq![(sub, parts_of(s2.gut)[0].0), (sub, parts_of(s2.gut)[1].0)], res)
    } else if f1 == ShapeForm::Intersection {
        let a = parts_of(s1.gut)[0].0;
        let b = parts_of(s1.gut)[1].0;
        if !(a < old.shapes().len() && b < old.shapes().len()) {
            res == IsSubShapeResult::Stuck && new == old
        } else {
            meet_join_facts(old, new, two_keys(a, b), two_keys(sup, sup).take(1), Seq::empty(), (cost + 1) as usize, res)
        }
    } else if f2 == ShapeForm::Intersection {
        all_asked(old, new, seq![(sub, parts_of(s2.gut)[0].0), (sub, parts_of(s2.gut)[1].0)], res)
    } else {
        true
    }
}

/// Two mappings are compared part by part in the same direction: whether
/// the key of the sub mapping is a subshape of the key of the super
/// mapping, then the same of their values, the worst answer deciding (a
/// function's parameters are the only parts asked the other way round).
/// So where both keys are elementary and the first is not a subset of the
/// second, the answer is no.
pub proof fn lemma_mapping_parts_covariant(
    old: GrandShapeContentSummaryAtWork,
    new: GrandShapeContentSummaryAtWork,
    sub: usize,
    sup: usize,
    cost: usize,
    res: IsSubShapeResult,
)
    requires
        sub < old.shapes().len(),
        sup < old.shapes().len(),
        old.shapes()[sub as int].gut is Mapping,
        old.shapes()[sup as int].gut is Mapping,
        structural_facts(old, new, sub, sup, cost, res),
    ensures
        ({
            let k1 = old.shapes()[sub as int].gut->Mapping_0.0;
            let v1 = old.shapes()[sub as int].gut->Mapping_1.0;
            let k2 = old.shapes()[sup as int].gut->Mapping_0.0;
            let v2 = old.shapes()[sup as int].gut->Mapping_1.0;
            &&& all_asked(old, new, seq![(k1, k2), (v1, v2)], res)
            &&& (k1 < old.shapes().len() && k2 < old.shapes().len() && old.shapes()[k1 as int].gut is Elementary
                && old.shapes()[k2 as int].gut is Elementary && !elementary_subset(
                old.shapes()[k1 as int].gut->Elementary_0.gut,
                old.shapes()[k2 as int].gut->Elementary_0.gut,
            )) ==> res == IsSubShapeResult::False
        }),
{
    let g1 = old.shapes()[sub as int].gut;
    let g2 = old.shapes()[sup as int].gut;
    let k1 = g1->Mapping_0.0;
    let v1 = g1->Mapping_1.0;
    let k2 = g2->Mapping_0.0;
    let v2 = g2->Mapping_1.0;
    let qs = seq![(k1, k2), (v1, v2)];
    assert(part_questions(g1, g2) =~= qs);
    if k1 < old.shapes().len() && k2 < old.shapes().len() && old.shapes()[k1 as int].gut is Elementary
        && old.shapes()[k2 as int].gut is Elementary && !elementary_subset(
        old.shapes()[k1 as int].gut->Elementary_0.gut,
        old.shapes()[k2 as int].gut->Elementary_0.gut,
    ) {
        let (ss, rs) = choose|ss: Seq<GrandShapeContentSummaryAtWork>, rs: Seq<IsSubShapeResult>| {
            &&& #[trigger] answered_in_turn(ss, qs, rs)
            &&& ss[0] == old
            &&& ss.last() == new
            &&& res == all_of(rs)
            &&& (rs.len() == qs.len() || res == IsSubShapeResult::False)
        };
        if rs.len() == 0 {
            assert(all_of(rs) == IsSubShapeResult::True);
        } else {
            assert(asked(ss[0], ss[1], qs[0].0, qs[0].1, rs[0]));
            assert(rs[0] == IsSubShapeResult::False);
            let r1 = rs.take(1);
            assert(r1.drop_last() =~= Seq::<IsSubShapeResult>::empty());
            assert(all_of(r1) == IsSubShapeResult::False);
            if rs.len() == 1 {
                assert(rs =~= r1);
            } else {
                assert(rs.drop_last() =~= r1);
                assert(all_of(rs) == worse(all_of(r1), rs.last()));
            }
        }
    }
}

/// Tuples, arrays and functions are compared part by part too: two
/// tuples of one length element against element, two arrays element shape
/// against element shape, each from the sub side to the super side; two
/// functions with as many parameters each parameter of the super function
/// against the parameter of the sub function (the other way round), and
/// then the sub function's result against the super function's result.
pub proof fn lemma_parts_directions(
    old: GrandShapeContentSummaryAtWork,
    new: GrandShapeContentSummaryAtWork,
    sub: usize,
    sup: usize,
    cost: usize,
    res: IsSubShapeResult,
)
    requires
        sub < old.shapes().len(),
        sup < old.shapes().len(),
        structural_facts(old, new, sub, sup, cost, res),
    ensures
        ({
            let g1 = old.shapes()[sub as int].gut;
            let g2 = old.shapes()[sup as int].gut;
            &&& (g1 is Tuple && g2 is Tuple && g1->Tuple_0@.len() == g2->Tuple_0@.len()) ==> all_asked(
                old,
                new,
                Seq::new(g1->Tuple_0@.len(), |i: int| (g1->Tuple_0@[i].0, g2->Tuple_0@[i].0)),
                res,
            )
            &&& (g1 is Array && g2 is Array) ==> all_asked(old, new, seq![(g1->Array_0.0, g2->Array_0.0)], res)
            &&& (g1 is Function && g2 is Function && g1->Function_0@.len() == g2->Function_0@.len()) ==> all_asked(
                old,
                new,
                Seq::new(g1->Function_0@.len(), |i: int| (g2->Function_0@[i].0, g1->Function_0@[i].0)).push(
                    (g1->Function_1.0, g2->Function_1.0),
                ),
                res,
            )
        }),
{
    let g1 = old.shapes()[sub as int].gut;
    let g2 = old.shapes()[sup as int].gut;
    if g1 is Tuple && g2 is Tuple && g1->Tuple_0@.len() == g2->Tuple_0@.len() {
        assert(part_questions(g1, g2) =~= Seq::new(g1->Tuple_0@.len(), |i: int| (g1->Tuple_0@[i].0, g2->Tuple_0@[i].0)));
    }
    if g1 is Array && g2 is Array {
        assert(part_questions(g1, g2) =~= seq![(g1->Array_0.0, g2->Array_0.0)]);
    }
    if g1 is Function && g2 is Function && g1->Function_0@.len() == g2->Function_0@.len() {
        let n = g1->Function_0@.len();
        let q = Seq::new(n, |i: int| (g2->Function_0@[i].0, g1->Function_0@[i].0)).push((g1->Function_1.0, g2->Function_1.0));
        assert(part_questions(g1, g2) =~= q);
    }
}

/// How a question goes on once one side was replaced by what it stands
/// for (`ro`, in `mid`): undecided where nothing was found; otherwise the
/// question with the replacement in its place (`sub_side` says which side
/// was replaced, `other` is the other side), asked from `mid` to `new`
/// unless the count of questions is at its end (too costly).
pub open spec fn then_asked(
    mid: GrandShapeContentSummaryAtWork,
    new: GrandShapeContentSummaryAtWork,
    ro: Option<ComputableShapeKey>,
    other: usize,
    sub_side: bool,
    cost: usize,
    res: IsSubShapeResult,
) -> bool {
    match ro {
        None => res == IsSubShapeResult::Stuck && new == mid,
        Some(a) => if cost < usize::MAX {
            if sub_side {
                asked(mid, new, a.0, other, res)
            } else {
                asked(mid, new, other, a.0, res)
            }
        } else {
            res == IsSubShapeResult::OverCost && new == mid
        },
    }
}

/// How the question whether the unresolved `sub` is a subshape of the
/// unresolved `sup` goes where no answer was recorded: with the question
/// assumed yes (`s1`, only the answers changed), `sub` is replaced
/// (`ra`, in `s2`), then `sup` (`rb`, in `s3`); where both were found the
/// replacements are compared (from `s3` to `s4`, too costly at the end of
/// the count), and otherwise the answer is undecided.
pub open spec fn unresolved_trace(
    old: GrandShapeContentSummaryAtWork,
    s1: GrandShapeContentSummaryAtWork,
    s2: GrandShapeContentSummaryAtWork,
    s3: GrandShapeContentSummaryAtWork,
    s4: GrandShapeContentSummaryAtWork,
    ra: Option<ComputableShapeKey>,
    rb: Option<ComputableShapeKey>,
    sub: usize,
    sup: usize,
    cost: usize,
    res: IsSubShapeResult,
) -> bool {
    &&& s1.same_but_answers(old)
    &&& s1.assumed_pairs() == old.assumed_pairs().insert((sub, sup))
    &&& realized(s1, s2, sub, ra)
    &&& realized(s2, s3, sup, rb)
    &&& match (ra, rb) {
        (Some(a), Some(b)) => if cost < usize::MAX {
            asked(s3, s4, a.0, b.0, res)
        } else {
            res == IsSubShapeResult::OverCost && s4 == s3
        },
        _ => res == IsSubShapeResult::Stuck && s4 == s3,
    }
}

/// How a question with an unresolved side goes (neither side `Empty`
/// on the left nor `Any` on the right): two unresolved shapes with no
/// recorded answer as `unresolved_trace` says, the answer then recorded;
/// one unresolved shape replaced by what it stands for (see `realized`)
/// and the question asked again with the replacement (see `then_asked`).
pub open spec fn unresolved_facts(
    old: GrandShapeContentSummaryAtWork,
    new: GrandShapeContentSummaryAtWork,
    sub: usize,
    sup: usize,
    cost: usize,
    res: IsSubShapeResult,
) -> bool {
    let s1 = old.shapes()[sub as int];
    let s2 = old.shapes()[sup as int];
    let f1 = form_of(s1.gut);
    let f2 = form_of(s2.gut);
    if s1.is_empty_shape() || s2.is_any_shape() {
        true
    } else if f1 == ShapeForm::Unresolved && f2 == ShapeForm::Unresolved {
        old.recorded_answer(sub, sup) is None ==> exists|
            a1: GrandShapeContentSummaryAtWork,
            a2: GrandShapeContentSummaryAtWork,
            a3: GrandShapeContentSummaryAtWork,
            a4: GrandShapeContentSummaryAtWork,
            ra: Option<ComputableShapeKey>,
            rb: Option<ComputableShapeKey>,
        | #[trigger] unresolved_trace(old, a1, a2, a3, a4, ra, rb, sub, sup, cost, res) && new.answer_recorded(sub, sup, res)
    } else if f1 == ShapeForm::Unresolved {
        exists|mid: GrandShapeContentSummaryAtWork, ro: Option<ComputableShapeKey>| #[trigger] realized(old, mid, sub, ro)
            && then_asked(mid, new, ro, sup, true, cost, res)
    } else if f2 == ShapeForm::Unresolved {
        exists|mid: GrandShapeContentSummaryAtWork, ro: Option<ComputableShapeKey>| #[trigger] realized(old, mid, sup, ro)
            && then_asked(mid, new, ro, sub, false, cost, res)
    } else {
        true
    }
}

/// Two questions that must both come out yes, the second asked unless the
/// first came out no.
proof fn lemma_pair_asked(
    s0: GrandShapeContentSummaryAtWork,
    s1: GrandShapeContentSummaryAtWork,
    s2: GrandShapeContentSummaryAtWork,
    qs: Seq<(usize, usize)>,
    r1: IsSubShapeResult,
    r2: IsSubShapeResult,
    second: bool,
)
    requires
        qs.len() == 2,
        asked(s0, s1, qs[0].0, qs[0].1, r1),
        second ==> asked(s1, s2, qs[1].0, qs[1].1, r2),
    ensures
        !second && r1 == IsSubShapeResult::False ==> all_asked(s0, s1, qs, r1),
        second ==> all_asked(s0, s2, qs, worse(r1, r2)),
{
    if !second {
        let ss = seq![s0, s1];
        let rs = seq![r1];
        assert(rs.drop_last() =~= Seq::<IsSubShapeResult>::empty());
        assert(answered_in_turn(ss, qs, rs));
    } else {
        let ss = seq![s0, s1, s2];
        let rs = seq![r1, r2];
        assert(rs.drop_last() =~= seq![r1]);
        assert(seq![r1].drop_last() =~= Seq::<IsSubShapeResult>::empty());
        assert(all_of(Seq::<IsSubShapeResult>::empty()) == IsSubShapeResult::True);
        assert(seq![r1].last() == r1);
        assert(all_of(seq![r1]) == r1);
        assert(all_of(rs) == worse(r1, r2));
        assert(answered_in_turn(ss, qs, rs));
        assert(ss.last() == s2);
    }
}

/// Two questions of which one must come out yes, the second asked unless
/// the first came out yes.
proof fn lemma_pair_any(
    s0: GrandShapeContentSummaryAtWork,
    s1: GrandShapeContentSummaryAtWork,
    s2: GrandShapeContentSummaryAtWork,
    qs: Seq<(usize, usize)>,
    r1: IsSubShapeResult,
    r2: IsSubShapeResult,
    second: bool,
)
    requires
        qs.len() == 2,
        asked(s0, s1, qs[0].0, qs[0].1, r1),
        second ==> asked(s1, s2, qs[1].0, qs[1].1, r2),
    ensures
        !second && r1 == IsSubShapeResult::True ==> any_asked(s0, s1, qs, r1),
        second ==> any_asked(s0, s2, qs, better(r1, r2)),
{
    if !second {
        let ss = seq![s0, s1];
        let rs = seq![r1];
        assert(rs.drop_last() =~= Seq::<IsSubShapeResult>::empty());
        assert(answered_in_turn(ss, qs, rs));
    } else {
        let ss = seq![s0, s1, s2];
        let rs = seq![r1, r2];
        assert(rs.drop_last() =~= seq![r1]);
        assert(seq![r1].drop_last() =~= Seq::<IsSubShapeResult>::empty());
        assert(any_of(Seq::<IsSubShapeResult>::empty()) == IsSubShapeResult::False);
        assert(seq![r1].last() == r1);
        assert(any_of(seq![r1]) == r1);
        assert(any_of(rs) == better(r1, r2));
        assert(answered_in_turn(ss, qs, rs));
        assert(ss.last() == s2);
    }
}

impl<'a> GrandShapeContentSummaryAtWork<'a> {
    /// Asks whether `sub` is a subshape of `sup` where both are stored, and
    /// answers undecided otherwise.
    fn ask_stored(&mut self, sub: ComputableShapeKey, sup: ComputableShapeKey, cost: usize) -> (res: IsSubShapeResult)
        requires
            old(self).ready(),
        ensures
            final(self).progressed_from(*old(self)),
            asked(*old(self), *final(self), sub.0, sup.0, res),
        decreases usize::MAX - cost, 1int,
    {
        if self.stored(sub) && self.stored(sup) {
            self.in_computable_shape_is_subshape(sub, sup, cost)
        } else {
            proof {
                lemma_progress_refl(*self);
            }
            IsSubShapeResult::Stuck
        }
    }

    /// Whether `potential_subshape` is a subshape of
    /// `potential_supershape`, at the given cost so far.  Each question
    /// asked on the way costs one more; the cost is checked against
    /// `SUBSHAPE_MAX_COST` by the meet-join comparison only, and here only
    /// where the count itself would run past the largest `usize` (the
    /// question is then too costly).  Two unresolved shapes are looked up among the
    /// recorded answers first; otherwise the question is assumed to come
    /// out yes while both are replaced by what they stand for and
    /// compared, and the answer is recorded.  One unresolved shape is
    /// replaced and compared.  Elementary shapes compare as sets; tuples,
    /// arrays, mappings and functions part by part (function parameters the
    /// other way round); a struct is a subshape where each field of the
    /// supershape has a subshape in the same field (`Any` where there is
    /// none); a union on the left must have both sides below, a union on
    /// the right one side above; an intersection on the left goes to the
    /// meet-join comparison, one on the right must have the subshape below
    /// both sides.  Where several answers must all hold the worst decides
    /// (yes, undecided, too costly, no), and the comparison stops at the
    /// first no; where one must hold the best decides.  Anything else is no.
    #[verifier::rlimit(50)]
    pub fn in_computable_shape_is_subshape(
        &mut self,
        potential_subshape: ComputableShapeKey,
        potential_supershape: ComputableShapeKey,
        cost: usize,
    ) -> (res: IsSubShapeResult)
        requires
            old(self).ready(),
            potential_subshape.0 < old(self).shapes().len(),
            potential_supershape.0 < old(self).shapes().len(),
        ensures
            final(self).progressed_from(*old(self)),
            answer_facts(*old(self), *final(self), potential_subshape.0, potential_supershape.0, res),
            cost < usize::MAX ==> structural_facts(*old(self), *final(self), potential_subshape.0, potential_supershape.0, cost, res),
            unresolved_facts(*old(self), *final(self), potential_subshape.0, potential_supershape.0, cost, res),
        decreases usize::MAX - cost, 0int,
    {
        proof {
            lemma_progress_refl(*self);
        }
        let sub = potential_subshape;
        let sup = potential_supershape;
        let ghost s0 = *self;
        if self.gsc_summary.kv_tables.computable_shape_table[sub.0].is_empty()
            || self.gsc_summary.kv_tables.computable_shape_table[sup.0].is_any() {
            return IsSubShapeResult::True;
        }
        let f1 = shape_form(&self.gsc_summary.kv_tables.computable_shape_table[sub.0].gut);
        let f2 = shape_form(&self.gsc_summary.kv_tables.computable_shape_table[sup.0].gut);
        if f1 == ShapeForm::Unresolved && f2 == ShapeForm::Unresolved {
            match self.find_proven_result_or_assumed(&sub, &sup) {
                Some(r) => {
                    return r;
                },
                None => {},
            }
            self.add_assumption(sub, sup);
            let ghost s1 = *self;
            proof {
                lemma_same_but_answers(s0, s1);
            }
            let r1 = self.realize_shape(sub);
            let ghost s2 = *self;
            let r2 = self.realize_shape(sup);
            let ghost s3 = *self;
            proof {
                lemma_progress_trans(s1, s2, s3);
            }
            let res = match (r1, r2) {
                (Some(a), Some(b)) => if cost < usize::MAX {
                    let r = self.in_computable_shape_is_subshape(a, b, cost + 1);
                    proof {
                        lemma_progress_trans(s1, s3, *self);
                    }
                    r
                } else {
                    IsSubShapeResult::OverCost
                },
                _ => IsSubShapeResult::Stuck,
            };
            let ghost s4 = *self;
            proof {
                assert(s1.gsc_summary.sub_shape_table_buffer.assumption.has(sup.0));
                assert(s4.gsc_summary.sub_shape_table_buffer.assumption.has(sup.0));
            }
            self.record_answer(sub, sup, res);
            proof {
                lemma_same_but_answers(s4, *self);
                lemma_grown_trans(s0, s1, s4);
                lemma_grown_trans(s0, s4, *self);
                assert(!s0.assumed_pairs().contains((sub.0, sup.0)));
                assert(s4.answers_kept(s1));
                assert(self.assumed_pairs() =~= s0.assumed_pairs());
                let b0 = s0.gsc_summary.sub_shape_table_buffer;
                let b1 = s1.gsc_summary.sub_shape_table_buffer;
                let b4 = s4.gsc_summary.sub_shape_table_buffer;
                let b5 = self.gsc_summary.sub_shape_table_buffer;
                assert(pairs(&b0.proven_true).subset_of(pairs(&b5.proven_true)));
                assert(pairs(&b0.proven_false).subset_of(pairs(&b5.proven_false)));
                assert(pairs(&b0.proven_stuck).subset_of(pairs(&b5.proven_stuck)));
                assert(pairs(&b0.proven_overcost).subset_of(pairs(&b5.proven_overcost)));
                assert forall|k: usize| #[trigger] b0.assumption.has(k) implies b5.assumption.has(k) by {
                    assert(b1.assumption.has(k));
                    assert(b4.assumption.has(k));
                }
                assert(self.answers_kept(s0));
                assert(unresolved_trace(s0, s1, s2, s3, s4, r1, r2, sub.0, sup.0, cost, res));
            }
            return res;
        }
        if f1 == ShapeForm::Unresolved {
            let r1 = self.realize_shape(sub);
            let ghost s1 = *self;
            let res = match r1 {
                Some(a) => if cost < usize::MAX {
                    let r = self.in_computable_shape_is_subshape(a, sup, cost + 1);
                    proof {
                        lemma_progress_trans(s0, s1, *self);
                    }
                    r
                } else {
                    IsSubShapeResult::OverCost
                },
                None => IsSubShapeResult::Stuck,
            };
            proof {
                assert(realized(s0, s1, sub.0, r1));
                assert(then_asked(s1, *self, r1, sup.0, true, cost, res));
            }
            return res;
        }
        if f2 == ShapeForm::Unresolved {
            let r2 = self.realize_shape(sup);
            let ghost s1 = *self;
            let res = match r2 {
                Some(b) => if cost < usize::MAX {
                    let r = self.in_computable_shape_is_subshape(sub, b, cost + 1);
                    proof {
                        lemma_progress_trans(s0, s1, *self);
                    }
                    r
                } else {
                    IsSubShapeResult::OverCost
                },
                None => IsSubShapeResult::Stuck,
            };
            proof {
                assert(realized(s0, s1, sup.0, r2));
                assert(then_asked(s1, *self, r2, sub.0, false, cost, res));
            }
            return res;
        }
        if f1 == ShapeForm::Elementary && f2 == ShapeForm::Elementary {
            let b = match (&self.gsc_summary.kv_tables.computable_shape_table[sub.0].gut, &self.gsc_summary.kv_tables.computable_shape_table[sup.0].gut) {
                (ComputableShapeGut::Elementary(e1), ComputableShapeGut::Elementary(e2)) => ElementaryPShape::pairwise_is_subset(e1, e2),
                _ => false,
            };
            return if b { IsSubShapeResult::True } else { IsSubShapeResult::False };
        }
        if f1 == f2 && (f1 == ShapeForm::Tuple || f1 == ShapeForm::Array || f1 == ShapeForm::Mapping || f1 == ShapeForm::Function) {
            let v1 = shape_parts_copy(&self.gsc_summary.kv_tables.computable_shape_table[sub.0].gut);
            let v2 = shape_parts_copy(&self.gsc_summary.kv_tables.computable_shape_table[sup.0].gut);
            if v1.len() != v2.len() {
                return IsSubShapeResult::False;
            }
            if cost == usize::MAX {
                return IsSubShapeResult::OverCost;
            }
            let is_function = f1 == ShapeForm::Function;
            let ghost g1 = s0.shapes()[sub.0 as int].gut;
            let ghost g2 = s0.shapes()[sup.0 as int].gut;
            let ghost qs = part_questions(g1, g2);
            let ghost mut ss: Seq<GrandShapeContentSummaryAtWork> = seq![s0];
            let ghost mut rs: Seq<IsSubShapeResult> = Seq::empty();
            let mut acc = IsSubShapeResult::True;
            let mut i: usize = 0;
            while i < v1.len() && !acc.is_false()
                invariant
                    i <= v1@.len(),
                    v1@.len() == v2@.len(),
                    cost < usize::MAX,
                    self.progressed_from(s0),
                    s0.ready(),
                    s0 == *old(self),
                    v1@ == parts_of(g1),
                    v2@ == parts_of(g2),
                    is_function == (form_of(g1) == ShapeForm::Function),
                    qs == part_questions(g1, g2),
                    rs.len() == i,
                    answered_in_turn(ss, qs, rs),
                    ss[0] == s0,
                    ss.last() == *self,
                    acc == all_of(rs),
                decreases v1@.len() - i,
            {
                let ghost st = *self;
                let r = if is_function && i + 1 < v1.len() {
                    self.ask_stored(v2[i], v1[i], cost + 1)
                } else {
                    self.ask_stored(v1[i], v2[i], cost + 1)
                };
                proof {
                    lemma_progress_trans(s0, st, *self);
                    let ss2 = ss.push(*self);
                    let rs2 = rs.push(r);
                    assert(qs[i as int] == (if is_function && i + 1 < v1@.len() { (v2@[i as int].0, v1@[i as int].0) } else { (v1@[i as int].0, v2@[i as int].0) }));
                    assert forall|k: int| 0 <= k < rs2.len() implies asked(ss2[k], ss2[k + 1], qs[k].0, qs[k].1, #[trigger] rs2[k]) by {
                        if k < rs.len() {
                            assert(rs2[k] == rs[k]);
                            assert(ss2[k] == ss[k] && ss2[k + 1] == ss[k + 1]);
                        }
                    }
                    assert(rs2.drop_last() =~= rs);
                    ss = ss2;
                    rs = rs2;
                }
                acc = both(acc, r);
                i = i + 1;
            }
            proof {
                assert(answered_in_turn(ss, qs, rs));
                assert(structural_facts(s0, *self, sub.0, sup.0, cost, acc));
            }
            return acc;
        }
        if f1 == ShapeForm::Struct && f2 == ShapeForm::Struct {
            if cost == usize::MAX {
                return IsSubShapeResult::OverCost;
            }
            let names1 = struct_field_names(&self.gsc_summary.kv_tables.computable_shape_table[sub.0].gut);
            let vals1 = shape_parts_copy(&self.gsc_summary.kv_tables.computable_shape_table[sub.0].gut);
            let names2 = struct_field_names(&self.gsc_summary.kv_tables.computable_shape_table[sup.0].gut);
            let vals2 = shape_parts_copy(&self.gsc_summary.kv_tables.computable_shape_table[sup.0].gut);
            let any = *self.ask_for_ecs_key(&ElementaryShape::Any);
            let ghost g1 = s0.shapes()[sub.0 as int].gut;
            let ghost g2 = s0.shapes()[sup.0 as int].gut;
            let ghost qs = struct_questions(s0, g1, g2);
            let ghost nm1 = names1@.map_values(|x: String| x@);
            let ghost nm2 = names2@.map_values(|x: String| x@);
            let ghost n1 = if nm1.len() <= vals1@.len() { nm1.len() } else { vals1@.len() };
            let ghost mut ss: Seq<GrandShapeContentSummaryAtWork> = seq![s0];
            let ghost mut rs: Seq<IsSubShapeResult> = Seq::empty();
            let mut acc = IsSubShapeResult::True;
            let mut j: usize = 0;
            while j < names2.len() && j < vals2.len() && !acc.is_false()
                invariant
                    cost < usize::MAX,
                    self.progressed_from(s0),
                    s0.ready(),
                    s0 == *old(self),
                    g1 is Struct,
                    g2 is Struct,
                    nm1 == names1@.map_values(|x: String| x@),
                    nm2 == names2@.map_values(|x: String| x@),
                    nm1 == g1->Struct_0.keys(),
                    nm2 == g2->Struct_0.keys(),
                    vals1@ == parts_of(g1),
                    vals2@ == parts_of(g2),
                    n1 == if nm1.len() <= vals1@.len() { nm1.len() } else { vals1@.len() },
                    any.0 == s0.gsc_summary.ecs_key_table.at(ElementaryShape::Any).0,
                    qs == struct_questions(s0, g1, g2),
                    j <= names2@.len(),
                    rs.len() == j,
                    answered_in_turn(ss, qs, rs),
                    ss[0] == s0,
                    ss.last() == *self,
                    acc == all_of(rs),
                decreases names2@.len() - j,
            {
                let mut field = any;
                let mut k: usize = 0;
                while k < names1.len() && k < vals1.len()
                    invariant
                        j < names2@.len(),
                        j < vals2@.len(),
                        k <= names1@.len(),
                        k <= vals1@.len(),
                        nm1.len() == names1@.len(),
                        n1 == if nm1.len() <= vals1@.len() { nm1.len() } else { vals1@.len() },
                        nm1 == names1@.map_values(|x: String| x@),
                        nm2 == names2@.map_values(|x: String| x@),
                        field.0 == field_for(nm1, vals1@, nm2[j as int], any.0, k as int),
                    decreases names1@.len() - k,
                {
                    if names1[k] == names2[j] {
                        field = vals1[k];
                    }
                    k = k + 1;
                }
                let ghost st = *self;
                let r = self.ask_stored(field, vals2[j], cost + 1);
                proof {
                    lemma_progress_trans(s0, st, *self);
                    assert(k as int == n1);
                    assert(qs[j as int] == (field.0, vals2@[j as int].0));
                    let ss2 = ss.push(*self);
                    let rs2 = rs.push(r);
                    assert forall|x: int| 0 <= x < rs2.len() implies asked(ss2[x], ss2[x + 1], qs[x].0, qs[x].1, #[trigger] rs2[x]) by {
                        if x < rs.len() {
                            assert(rs2[x] == rs[x]);
                            assert(ss2[x] == ss[x] && ss2[x + 1] == ss[x + 1]);
                        }
                    }
                    assert(rs2.drop_last() =~= rs);
                    ss = ss2;
                    rs = rs2;
                }
                acc = both(acc, r);
                j = j + 1;
            }
            proof {
                assert(answered_in_turn(ss, qs, rs));
            }
            return acc;
        }
        if f1 == ShapeForm::Union {
            if cost == usize::MAX {
                return IsSubShapeResult::OverCost;
            }
            let v1 = shape_parts_copy(&self.gsc_summary.kv_tables.computable_shape_table[sub.0].gut);
            let ghost qs = seq![(v1@[0].0, sup.0), (v1@[1].0, sup.0)];
            let r1 = self.ask_stored(v1[0], sup, cost + 1);
            let ghost s1 = *self;
            proof {
                lemma_pair_asked(s0, s1, s1, qs, r1, r1, false);
            }
            if r1.is_false() {
                return r1;
            }
            let r2 = self.ask_stored(v1[1], sup, cost + 1);
            proof {
                lemma_progress_trans(s0, s1, *self);
                lemma_pair_asked(s0, s1, *self, qs, r1, r2, true);
            }
            return both(r1, r2);
        }
        if f2 == ShapeForm::Union {
            if cost == usize::MAX {
                return IsSubShapeResult::OverCost;
            }
            let v2 = shape_parts_copy(&self.gsc_summary.kv_tables.computable_shape_table[sup.0].gut);
            let ghost qs = seq![(sub.0, v2@[0].0), (sub.0, v2@[1].0)];
            let r1 = self.ask_stored(sub, v2[0], cost + 1);
            let ghost s1 = *self;
            proof {
                lemma_pair_any(s0, s1, s1, qs, r1, r1, false);
            }
            if r1.is_true() {
                return r1;
            }
            let r2 = self.ask_stored(sub, v2[1], cost + 1);
            proof {
                lemma_progress_trans(s0, s1, *self);
                lemma_pair_any(s0, s1, *self, qs, r1, r2, true);
            }
            return either(r1, r2);
        }
        if f1 == ShapeForm::Intersection {
            if cost == usize::MAX {
                return IsSubShapeResult::OverCost;
            }
            let v1 = shape_parts_copy(&self.gsc_summary.kv_tables.computable_shape_table[sub.0].gut);
            if self.stored(v1[0]) && self.stored(v1[1]) {
                let meets = vec![v1[0], v1[1]];
                let joins = vec![sup];
                proof {
                    assert(meets@ =~= two_keys(v1@[0].0, v1@[1].0));
                    assert(joins@ =~= two_keys(sup.0, sup.0).take(1));
                }
                return self.left_meet_right_join_in_computable_shape_is_subshape(meets, joins, Vec::new(), cost + 1);
            }
            return IsSubShapeResult::Stuck;
        }
        if f2 == ShapeForm::Intersection {
            if cost == usize::MAX {
                return IsSubShapeResult::OverCost;
            }
            let v2 = shape_parts_copy(&self.gsc_summary.kv_tables.computable_shape_table[sup.0].gut);
            let ghost qs = seq![(sub.0, v2@[0].0), (sub.0, v2@[1].0)];
            let r1 = self.ask_stored(sub, v2[0], cost + 1);
            let ghost s1 = *self;
            proof {
                lemma_pair_asked(s0, s1, s1, qs, r1, r1, false);
            }
            if r1.is_false() {
                return r1;
            }
            let r2 = self.ask_stored(sub, v2[1], cost + 1);
            proof {
                lemma_progress_trans(s0, s1, *self);
                lemma_pair_asked(s0, s1, *self, qs, r1, r2, true);
            }
            return both(r1, r2);
        }
        IsSubShapeResult::False
    }

    /// Whether the meet (intersection) of `meet_shapes` is a subshape of the
    /// join (union) of `join_shapes`, at the given cost so far; past
    /// `SUBSHAPE_MAX_COST` the answer is too costly.  One shape on each side
    /// is an ordinary question; otherwise each shape on the left is asked,
    /// row by row, to be below each shape on the right, and the first yes
    /// answers yes (see `pairs_asked`).  Next the unresolved shapes not
    /// replaced before on this path (`realize_stuck_buffer`) are replaced
    /// by what they stand for; where there were unresolved shapes but none
    /// could be newly replaced the answer is undecided.  Then: yes where
    /// every shape on the left is `Empty` or every shape on the right `Any`;
    /// a union on the left splits the question in two that must both hold;
    /// an intersection on the left adds its sides to the meet; a union on
    /// the right adds its sides to the join; an intersection on the right
    /// splits the question in two that must both hold; where all shapes
    /// are elementary, the meet of the left (as elementary shapes meet) is
    /// compared with the join of the right (undecided where the join has no
    /// elementary form).  Anything else is undecided (see
    /// `meet_join_facts`).
    #[verifier::rlimit(100)]
    pub fn left_meet_right_join_in_computable_shape_is_subshape(
        &mut self,
        meet_shapes: Vec<ComputableShapeKey>,
        join_shapes: Vec<ComputableShapeKey>,
        realize_stuck_buffer: Vec<UnresolvedPShapeGut>,
        cost: usize,
    ) -> (res: IsSubShapeResult)
        requires
            old(self).ready(),
            meet_shapes@.len() > 0,
            join_shapes@.len() > 0,
            all_stored(old(self).shapes(), meet_shapes@),
            all_stored(old(self).shapes(), join_shapes@),
        ensures
            meet_join_facts(*old(self), *final(self), meet_shapes@, join_shapes@, realize_stuck_buffer@, cost, res),
        decreases usize::MAX - cost, 0int,
    {
        proof {
            lemma_progress_refl(*self);
        }
        if cost > SUBSHAPE_MAX_COST {
            return IsSubShapeResult::OverCost;
        }
        let ghost s0 = *self;
        if meet_shapes.len() == 1 && join_shapes.len() == 1 {
            return self.in_computable_shape_is_subshape(meet_shapes[0], join_shapes[0], cost + 1);
        }
        let ghost mut ss: Seq<GrandShapeContentSummaryAtWork> = seq![s0];
        let ghost mut rs: Seq<IsSubShapeResult> = Seq::empty();
        let ghost mut ps: Seq<(int, int)> = Seq::empty();
        let mut i: usize = 0;
        while i < meet_shapes.len()
            invariant
                pair_steps(s0, *self, meet_shapes@, join_shapes@, ss, rs, ps),
                forall|k: int| 0 <= k < rs.len() ==> #[trigger] rs[k] != IsSubShapeResult::True,
                (i == 0) == (rs.len() == 0),
                i > 0 ==> ps.last() == (i - 1, join_shapes@.len() - 1),
                !(meet_shapes@.len() == 1 && join_shapes@.len() == 1),
                cost <= SUBSHAPE_MAX_COST,
                self.progressed_from(s0),
                s0.ready(),
                s0 == *old(self),
                all_stored(s0.shapes(), meet_shapes@),
                all_stored(s0.shapes(), join_shapes@),
                all_stored(self.shapes(), meet_shapes@),
                all_stored(self.shapes(), join_shapes@),
                i <= meet_shapes@.len(),
                join_shapes@.len() > 0,
                forall|i2: int, j2: int| 0 <= i2 < i && 0 <= j2 < join_shapes@.len() ==> !#[trigger] settled_below(
                    s0,
                    meet_shapes@[i2].0,
                    join_shapes@[j2].0,
                ),
            decreases meet_shapes@.len() - i,
        {
            let mut j: usize = 0;
            while j < join_shapes.len()
                invariant
                    !(meet_shapes@.len() == 1 && join_shapes@.len() == 1),
                    cost <= SUBSHAPE_MAX_COST,
                    i < meet_shapes@.len(),
                    self.progressed_from(s0),
                    s0.ready(),
                    s0 == *old(self),
                    all_stored(s0.shapes(), meet_shapes@),
                    all_stored(s0.shapes(), join_shapes@),
                    all_stored(self.shapes(), meet_shapes@),
                    all_stored(self.shapes(), join_shapes@),
                    j <= join_shapes@.len(),
                    forall|i2: int, j2: int| 0 <= i2 < i && 0 <= j2 < join_shapes@.len() ==> !#[trigger] settled_below(
                        s0,
                        meet_shapes@[i2].0,
                        join_shapes@[j2].0,
                    ),
                    forall|j2: int| 0 <= j2 < j ==> !#[trigger] settled_below(s0, meet_shapes@[i as int].0, join_shapes@[j2].0),
                    pair_steps(s0, *self, meet_shapes@, join_shapes@, ss, rs, ps),
                    forall|k: int| 0 <= k < rs.len() ==> #[trigger] rs[k] != IsSubShapeResult::True,
                    (i == 0 && j == 0) == (rs.len() == 0),
                    j > 0 ==> ps.last() == (i as int, j - 1),
                    j == 0 && i > 0 ==> ps.last() == (i - 1, join_shapes@.len() - 1),
                decreases join_shapes@.len() - j,
            {
                let ghost st = *self;
                proof {
                    lemma_shapes_kept(s0, st, meet_shapes@[i as int].0);
                    lemma_shapes_kept(s0, st, join_shapes@[j as int].0);
                }
                let r = self.in_computable_shape_is_subshape(meet_shapes[i], join_shapes[j], cost + 1);
                proof {
                    lemma_progress_trans(s0, st, *self);
                    if settled_below(s0, meet_shapes@[i as int].0, join_shapes@[j as int].0) {
                        lemma_settled_answer(s0, st, *self, meet_shapes@[i as int].0, join_shapes@[j as int].0, r);
                    }
                }
                let ghost ss0 = ss;
                let ghost rs0 = rs;
                let ghost ps0 = ps;
                proof {
                    let n = join_shapes@.len() as int;
                    ss = ss.push(*self);
                    rs = rs.push(r);
                    ps = ps.push((i as int, j as int));
                    assert(asked(st, *self, meet_shapes@[i as int].0, join_shapes@[j as int].0, r));
                    assert forall|k: int| 0 < k < ps.len() implies #[trigger] step_ok(ps, k, n) by {
                        if k < ps0.len() {
                            assert(step_ok(ps0, k, n));
                        }
                    }
                    assert forall|k: int| 0 <= k < rs.len() implies asked(
                        ss[k],
                        ss[k + 1],
                        meet_shapes@[ps[k].0].0,
                        join_shapes@[ps[k].1].0,
                        #[trigger] rs[k],
                    ) by {
                        if k < rs0.len() {
                            assert(rs0[k] == rs[k]);
                            assert(ss0[k + 1] == ss[k + 1]);
                        }
                    }
                    assert forall|k: int| 0 <= k < rs.len() implies 0 <= (#[trigger] ps[k]).0 < meet_shapes@.len() && 0 <= ps[k].1
                        < join_shapes@.len() by {
                        if k < rs0.len() {
                            assert(ps0[k] == ps[k]);
                        }
                    }
                    assert forall|k: int| 0 <= k < rs.len() - 1 implies #[trigger] rs[k] != IsSubShapeResult::True by {
                        assert(rs0[k] == rs[k]);
                    }
                    assert(pair_steps(s0, *self, meet_shapes@, join_shapes@, ss, rs, ps));
                }
                if r.is_true() {
                    proof {
                        lemma_progress_refl(*self);
                        assert(pair_trace(s0, *self, meet_shapes@, join_shapes@, true, ss, rs, ps));
                        assert(pairs_asked(s0, *self, meet_shapes@, join_shapes@, true));
                    }
                    return IsSubShapeResult::True;
                }
                proof {
                    assert forall|k: int| 0 <= k < rs.len() implies #[trigger] rs[k] != IsSubShapeResult::True by {
                        if k < rs0.len() {
                            assert(rs0[k] == rs[k]);
                        }
                    }
                }
                j = j + 1;
            }
            i = i + 1;
        }
        let ghost mid = *self;
        proof {
            assert(!some_pair_settled(s0, meet_shapes@, join_shapes@));
            assert(pair_trace(s0, mid, meet_shapes@, join_shapes@, false, ss, rs, ps));
            lemma_progress_refl(mid);
        }
        let ghost pl = plain_lists(mid, meet_shapes@, join_shapes@);
        let ghost nr = nothing_to_realize(mid, meet_shapes@, join_shapes@, realize_stuck_buffer@);
        let mut buffer = realize_stuck_buffer;
        let mut had_unresolved = false;
        let mut realized_any = false;
        let mut lefts: Vec<ComputableShapeKey> = Vec::new();
        let mut rights: Vec<ComputableShapeKey> = Vec::new();
        let ghost items = meet_shapes@ + join_shapes@;
        let ghost mut ss: Seq<GrandShapeContentSummaryAtWork> = seq![mid];
        let ghost mut bs: Seq<Seq<UnresolvedPShapeGut>> = seq![realize_stuck_buffer@];
        proof {
            assert(lefts@ + rights@ =~= Seq::<ComputableShapeKey>::empty());
            assert(items.take(0) =~= Seq::<ComputableShapeKey>::empty());
        }
        let mut side: usize = 0;
        while side < 2
            invariant
                !some_pair_settled(s0, meet_shapes@, join_shapes@),
                pairs_asked(s0, mid, meet_shapes@, join_shapes@, false),
                self.progressed_from(mid),
                !(meet_shapes@.len() == 1 && join_shapes@.len() == 1),
                side <= 2,
                cost <= SUBSHAPE_MAX_COST,
                self.progressed_from(s0),
                s0.ready(),
                s0 == *old(self),
                all_stored(self.shapes(), meet_shapes@),
                all_stored(self.shapes(), join_shapes@),
                all_stored(self.shapes(), lefts@),
                all_stored(self.shapes(), rights@),
                side >= 1 ==> lefts@.len() == meet_shapes@.len(),
                side >= 2 ==> rights@.len() == join_shapes@.len(),
                side == 0 ==> lefts@.len() == 0,
                side <= 1 ==> rights@.len() == 0,
                pl == plain_lists(mid, meet_shapes@, join_shapes@),
                pl ==> *self == mid && !had_unresolved,
                pl && side >= 1 ==> lefts@ == meet_shapes@,
                pl && side >= 2 ==> rights@ == join_shapes@,
                nr == nothing_to_realize(mid, meet_shapes@, join_shapes@, realize_stuck_buffer@),
                nr ==> *self == mid && buffer@ == realize_stuck_buffer@ && !realized_any,
                nr && side >= 1 && any_unresolved(mid, meet_shapes@) ==> had_unresolved,
                nr && side >= 2 && any_unresolved(mid, join_shapes@) ==> had_unresolved,
                items == meet_shapes@ + join_shapes@,
                all_stored(mid.shapes(), meet_shapes@),
                all_stored(mid.shapes(), join_shapes@),
                realize_trace(items, ss, bs, lefts@ + rights@),
                ss[0] == mid,
                bs[0] == realize_stuck_buffer@,
                ss.last() == *self,
                bs.last() == buffer@,
                buffer@.len() >= realize_stuck_buffer@.len(),
                realized_any == (buffer@.len() > realize_stuck_buffer@.len()),
                had_unresolved == any_unresolved(mid, items.take((lefts@.len() + rights@.len()) as int)),
            decreases 2 - side,
        {
            let n = if side == 0 { meet_shapes.len() } else { join_shapes.len() };
            let mut k: usize = 0;
            while k < n
                invariant
                    !some_pair_settled(s0, meet_shapes@, join_shapes@),
                pairs_asked(s0, mid, meet_shapes@, join_shapes@, false),
                self.progressed_from(mid),
                    !(meet_shapes@.len() == 1 && join_shapes@.len() == 1),
                    side < 2,
                    n == if side == 0 { meet_shapes@.len() } else { join_shapes@.len() },
                    k <= n,
                    cost <= SUBSHAPE_MAX_COST,
                    self.progressed_from(s0),
                    s0.ready(),
                    s0 == *old(self),
                s0 == *old(self),
                    all_stored(self.shapes(), meet_shapes@),
                    all_stored(self.shapes(), join_shapes@),
                    all_stored(self.shapes(), lefts@),
                    all_stored(self.shapes(), rights@),
                    side == 0 ==> lefts@.len() == k && rights@.len() == 0,
                    side == 1 ==> lefts@.len() == meet_shapes@.len() && rights@.len() == k,
                    pl == plain_lists(mid, meet_shapes@, join_shapes@),
                    pl ==> *self == mid && !had_unresolved,
                    pl && side == 0 ==> lefts@ == meet_shapes@.take(k as int),
                    pl && side == 1 ==> lefts@ == meet_shapes@ && rights@ == join_shapes@.take(k as int),
                    nr == nothing_to_realize(mid, meet_shapes@, join_shapes@, realize_stuck_buffer@),
                    nr ==> *self == mid && buffer@ == realize_stuck_buffer@ && !realized_any,
                    nr && side == 1 && any_unresolved(mid, meet_shapes@) ==> had_unresolved,
                    nr && any_unresolved(mid, (if side == 0 { meet_shapes@ } else { join_shapes@ }).take(k as int)) ==> had_unresolved,
                    items == meet_shapes@ + join_shapes@,
                all_stored(mid.shapes(), meet_shapes@),
                all_stored(mid.shapes(), join_shapes@),
                    realize_trace(items, ss, bs, lefts@ + rights@),
                    ss[0] == mid,
                    bs[0] == realize_stuck_buffer@,
                    ss.last() == *self,
                    bs.last() == buffer@,
                    buffer@.len() >= realize_stuck_buffer@.len(),
                    realized_any == (buffer@.len() > realize_stuck_buffer@.len()),
                    had_unresolved == any_unresolved(mid, items.take((lefts@.len() + rights@.len()) as int)),
                decreases n - k,
            {
                let key = if side == 0 { meet_shapes[k] } else { join_shapes[k] };
                let ghost cur = if side == 0 { meet_shapes@ } else { join_shapes@ };
                let ghost sb = *self;
                let ghost bb = buffer@;
                let ghost ob = lefts@ + rights@;
                let ghost p0 = (lefts@.len() + rights@.len()) as int;
                proof {
                    assert(cur[k as int] == key);
                    assert(cur.contains(key));
                    assert(cur.take(k + 1).drop_last() =~= cur.take(k as int));
                    assert(cur.take(k + 1)[k as int] == key);
                    if nr && form_of(mid.shapes()[key.0 as int].gut) == ShapeForm::Unresolved {
                        assert(meet_shapes@.contains(key) || join_shapes@.contains(key));
                    }
                    if pl {
                        if side == 0 {
                            assert(plain_shape(mid, meet_shapes@[k as int].0));
                        } else {
                            assert(plain_shape(mid, join_shapes@[k as int].0));
                        }
                    }
                }
                let mut out = key;
                let parts = match &self.gsc_summary.kv_tables.computable_shape_table[key.0].gut {
                    ComputableShapeGut::Unresolved(u) => Some(copy_unresolved(&u.gut)),
                    _ => None,
                };
                match parts {
                    Some(g) => {
                        had_unresolved = true;
                        let ghost orig = sb.shapes()[key.0 as int].gut->Unresolved_0.gut;
                        if !contains_unresolved(&buffer, &g) {
                            proof {
                                assert(!buffered(bb, orig)) by {
                                    if buffered(bb, orig) {
                                        let x = choose|x: int| 0 <= x < bb.len() && same_parts(#[trigger] bb[x], orig);
                                        assert(same_parts(buffer@[x], g));
                                    }
                                }
                            }
                            buffer.push(g);
                            realized_any = true;
                            let ghost st = *self;
                            let ro = self.realize_shape(key);
                            match ro {
                                Some(r) => {
                                    out = r;
                                },
                                None => {},
                            }
                            proof {
                                lemma_progress_trans(s0, st, *self);
                                lemma_progress_trans(mid, st, *self);
                                assert(buffer@.take(bb.len() as int) =~= bb);
                                assert(realized(sb, *self, key.0, ro));
                            }
                        } else {
                            proof {
                                let x = choose|x: int| 0 <= x < bb.len() && same_parts(#[trigger] bb[x], g);
                                assert(same_parts(bb[x], orig));
                                assert(buffered(bb, orig));
                            }
                        }
                    },
                    None => {},
                }
                proof {
                    assert(items[p0] == key);
                    lemma_shapes_kept(mid, sb, key.0);
                    assert(realize_step(sb, *self, key.0, bb, buffer@, out));
                }
                if side == 0 {
                    lefts.push(out);
                } else {
                    rights.push(out);
                }
                proof {
                    assert(lefts@ + rights@ =~= ob.push(out));
                    let ss2 = ss.push(*self);
                    let bs2 = bs.push(buffer@);
                    assert forall|x: int| 0 <= x < ob.len() + 1 implies #[trigger] realize_step(ss2[x], ss2[x + 1], items[x].0, bs2[x], bs2[x + 1], (lefts@ + rights@)[x]) by {
                        if x < ob.len() {
                            assert(ss2[x] == ss[x] && ss2[x + 1] == ss[x + 1] && bs2[x] == bs[x] && bs2[x + 1] == bs[x + 1]);
                            assert((lefts@ + rights@)[x] == ob[x]);
                        }
                    }
                    ss = ss2;
                    bs = bs2;
                    assert(items.take(p0 + 1) =~= items.take(p0).push(key));
                    if had_unresolved {
                        if form_of(mid.shapes()[key.0 as int].gut) == ShapeForm::Unresolved {
                            assert(items.take(p0 + 1)[p0] == key);
                            assert(form_of(mid.shapes()[items.take(p0 + 1)[p0].0 as int].gut) == ShapeForm::Unresolved);
                        } else {
                            assert(any_unresolved(mid, items.take(p0)));
                            let x = choose|x: int| 0 <= x < items.take(p0).len()
                                && form_of(#[trigger] mid.shapes()[items.take(p0)[x].0 as int].gut) == ShapeForm::Unresolved;
                            assert(items.take(p0 + 1)[x] == items.take(p0)[x]);
                            assert(form_of(mid.shapes()[items.take(p0 + 1)[x].0 as int].gut) == ShapeForm::Unresolved);
                        }
                    } else {
                        assert(!any_unresolved(mid, items.take(p0 + 1))) by {
                            if any_unresolved(mid, items.take(p0 + 1)) {
                                let x = choose|x: int| 0 <= x < items.take(p0 + 1).len()
                                    && form_of(#[trigger] mid.shapes()[items.take(p0 + 1)[x].0 as int].gut) == ShapeForm::Unresolved;
                                if x < p0 {
                                    assert(items.take(p0)[x] == items.take(p0 + 1)[x]);
                                }
                            }
                        }
                    }
                }
                proof {
                    assert(all_stored(self.shapes(), lefts@));
                    assert(all_stored(self.shapes(), rights@));
                    if pl {
                        if side == 0 {
                            assert(lefts@ =~= meet_shapes@.take(k + 1));
                        } else {
                            assert(rights@ =~= join_shapes@.take(k + 1));
                        }
                    }
                    if nr && any_unresolved(mid, cur.take(k + 1)) {
                        let x = choose|x: int| 0 <= x < cur.take(k + 1).len()
                            && form_of(#[trigger] mid.shapes()[cur.take(k + 1)[x].0 as int].gut) == ShapeForm::Unresolved;
                        if x < k {
                            assert(cur.take(k as int)[x] == cur.take(k + 1)[x]);
                            assert(any_unresolved(mid, cur.take(k as int)));
                        }
                    }
                }
                k = k + 1;
            }
            proof {
                if pl {
                    if side == 0 {
                        assert(lefts@ =~= meet_shapes@);
                    } else {
                        assert(rights@ =~= join_shapes@);
                    }
                }
                assert(meet_shapes@.take(meet_shapes@.len() as int) =~= meet_shapes@);
                assert(join_shapes@.take(join_shapes@.len() as int) =~= join_shapes@);
            }
            side = side + 1;
        }
        let ghost mid2 = *self;
        let ghost gl = lefts@;
        let ghost gr = rights@;
        let ghost gb = buffer@;
        proof {
            assert(items.take(items.len() as int) =~= items);
            assert(lefts@ + rights@ =~= gl + gr);
            assert(realized_lists(mid, meet_shapes@, join_shapes@, realize_stuck_buffer@, mid2, gl, gr, gb));
            lemma_progress_refl(mid2);
        }
        if had_unresolved && !realized_any {
            return IsSubShapeResult::Stuck;
        }
        proof {
            assert(!nr);
        }
        let mut all_empty = true;
        let mut k: usize = 0;
        while k < lefts.len()
            invariant
                !some_pair_settled(s0, meet_shapes@, join_shapes@),
                pairs_asked(s0, mid, meet_shapes@, join_shapes@, false),
                self.progressed_from(mid),
                !(meet_shapes@.len() == 1 && join_shapes@.len() == 1),
                cost <= SUBSHAPE_MAX_COST,
                self.progressed_from(s0),
                s0.ready(),
                s0 == *old(self),
                all_stored(self.shapes(), lefts@),
                all_stored(self.shapes(), rights@),
                pl == plain_lists(mid, meet_shapes@, join_shapes@),
                !nr,
                nr == nothing_to_realize(mid, meet_shapes@, join_shapes@, realize_stuck_buffer@),
                *self == mid2 && lefts@ == gl && rights@ == gr && buffer@ == gb,
                mid2.progressed_from(mid2),
                realized_lists(mid, meet_shapes@, join_shapes@, realize_stuck_buffer@, mid2, gl, gr, gb),
                !(any_unresolved(mid, meet_shapes@ + join_shapes@) && gb.len() == realize_stuck_buffer@.len()),
                pl ==> *self == mid && lefts@ == meet_shapes@ && rights@ == join_shapes@,
                k <= lefts@.len(),
                all_empty == all_empty_shapes(*self, lefts@.take(k as int)),
            decreases lefts@.len() - k,
        {
            proof {
                assert(lefts@.take(k + 1).drop_last() =~= lefts@.take(k as int));
                assert(lefts@.take(k + 1)[k as int] == lefts@[k as int]);
            }
            if !self.gsc_summary.kv_tables.computable_shape_table[lefts[k].0].is_empty() {
                all_empty = false;
            }
            k = k + 1;
        }
        let mut all_any = true;
        let mut k: usize = 0;
        while k < rights.len()
            invariant
                !some_pair_settled(s0, meet_shapes@, join_shapes@),
                pairs_asked(s0, mid, meet_shapes@, join_shapes@, false),
                self.progressed_from(mid),
                !(meet_shapes@.len() == 1 && join_shapes@.len() == 1),
                cost <= SUBSHAPE_MAX_COST,
                self.progressed_from(s0),
                s0.ready(),
                s0 == *old(self),
                all_stored(self.shapes(), lefts@),
                all_stored(self.shapes(), rights@),
                pl == plain_lists(mid, meet_shapes@, join_shapes@),
                !nr,
                nr == nothing_to_realize(mid, meet_shapes@, join_shapes@, realize_stuck_buffer@),
                *self == mid2 && lefts@ == gl && rights@ == gr && buffer@ == gb,
                mid2.progressed_from(mid2),
                realized_lists(mid, meet_shapes@, join_shapes@, realize_stuck_buffer@, mid2, gl, gr, gb),
                !(any_unresolved(mid, meet_shapes@ + join_shapes@) && gb.len() == realize_stuck_buffer@.len()),
                pl ==> *self == mid && lefts@ == meet_shapes@ && rights@ == join_shapes@,
                k <= rights@.len(),
                all_any == all_any_shapes(*self, rights@.take(k as int)),
            decreases rights@.len() - k,
        {
            proof {
                assert(rights@.take(k + 1).drop_last() =~= rights@.take(k as int));
                assert(rights@.take(k + 1)[k as int] == rights@[k as int]);
            }
            if !self.gsc_summary.kv_tables.computable_shape_table[rights[k].0].is_any() {
                all_any = false;
            }
            k = k + 1;
        }
        proof {
            assert(lefts@.take(lefts@.len() as int) =~= lefts@);
            assert(rights@.take(rights@.len() as int) =~= rights@);
        }
        if all_empty || all_any {
            return IsSubShapeResult::True;
        }
        // a union on the left: both of its sides must be below
        let mut k: usize = 0;
        while k < lefts.len()
            invariant
                !some_pair_settled(s0, meet_shapes@, join_shapes@),
                pairs_asked(s0, mid, meet_shapes@, join_shapes@, false),
                self.progressed_from(mid),
                !(meet_shapes@.len() == 1 && join_shapes@.len() == 1),
                cost <= SUBSHAPE_MAX_COST,
                self.progressed_from(s0),
                s0.ready(),
                s0 == *old(self),
                all_stored(self.shapes(), lefts@),
                all_stored(self.shapes(), rights@),
                lefts@.len() > 0,
                rights@.len() > 0,
                lefts@.len() > 0,
                pl == plain_lists(mid, meet_shapes@, join_shapes@),
                !nr,
                nr == nothing_to_realize(mid, meet_shapes@, join_shapes@, realize_stuck_buffer@),
                *self == mid2 && lefts@ == gl && rights@ == gr && buffer@ == gb,
                mid2.progressed_from(mid2),
                realized_lists(mid, meet_shapes@, join_shapes@, realize_stuck_buffer@, mid2, gl, gr, gb),
                !(any_unresolved(mid, meet_shapes@ + join_shapes@) && gb.len() == realize_stuck_buffer@.len()),
                pl ==> *self == mid && lefts@ == meet_shapes@ && rights@ == join_shapes@,
                pl ==> !(all_empty_shapes(mid, meet_shapes@) || all_any_shapes(mid, join_shapes@)),
                !(all_empty_shapes(mid2, gl) || all_any_shapes(mid2, gr)),
                k <= lefts@.len(),
                forall|x: int| 0 <= x < k ==> form_of(#[trigger] mid2.shapes()[gl[x].0 as int].gut) != ShapeForm::Union,
            decreases lefts@.len() - k,
        {
            proof {
                if pl {
                    assert(plain_shape(mid, meet_shapes@[k as int].0));
                }
            }
            if shape_form(&self.gsc_summary.kv_tables.computable_shape_table[lefts[k].0].gut) == ShapeForm::Union {
                let v = shape_parts_copy(&self.gsc_summary.kv_tables.computable_shape_table[lefts[k].0].gut);
                proof {
                    {
                        assert(first_of_form(mid2, gl, ShapeForm::Union, k as int));
                        let kk = choose|kk: int| first_of_form(mid2, gl, ShapeForm::Union, kk);
                        assert(kk == k) by {
                            if kk > k {
                                assert(form_of(mid2.shapes()[gl[k as int].0 as int].gut) != ShapeForm::Union);
                            }
                        }
                    }
                }
                if !(self.stored(v[0]) && self.stored(v[1])) {
                    proof {
                        {
                            assert(split_facts(mid2, *self, gl, gr, gb, cost, IsSubShapeResult::Stuck));
                        }
                    }
                    return IsSubShapeResult::Stuck;
                }
                let l1 = replaced(&lefts, k, v[0]);
                let l2 = replaced(&lefts, k, v[1]);
                let ghost st = *self;
                let b1 = copy_unresolved_list(&buffer);
                let ghost b1v = b1@;
                let r1 = self.left_meet_right_join_in_computable_shape_is_subshape(l1, copy_keys(&rights), b1, cost + 1);
                let ghost s1 = *self;
                proof {
                    lemma_progress_trans(s0, st, *self);
                    lemma_progress_trans(mid, st, *self);
                    lemma_progress_trans(mid2, st, *self);
                }
                if r1.is_false() {
                    proof {
                        {
                            assert(same_buffers(b1v, gb));
                            assert(meet_join_facts(mid2, s1, gl.update(k as int, v@[0]), gr, b1v, (cost + 1) as usize, r1));
                            assert(reached(s1, r1));
                            assert(split_facts(mid2, *self, gl, gr, gb, cost, r1));
                        }
                    }
                    return r1;
                }
                let ghost st2 = *self;
                proof {
                    assert(all_stored(self.shapes(), l2@));
                }
                let r2 = self.left_meet_right_join_in_computable_shape_is_subshape(l2, rights, buffer, cost + 1);
                proof {
                    lemma_progress_trans(s0, st2, *self);
                    lemma_progress_trans(mid, st2, *self);
                    lemma_progress_trans(mid2, st2, *self);
                    {
                        assert(same_buffers(b1v, gb));
                        assert(meet_join_facts(mid2, s1, gl.update(k as int, v@[0]), gr, b1v, (cost + 1) as usize, r1));
                        assert(meet_join_facts(s1, *self, gl.update(k as int, v@[1]), gr, gb, (cost + 1) as usize, r2));
                        assert(reached(s1, r1));
                        assert(reached(*self, r2));
                        assert(split_facts(mid2, *self, gl, gr, gb, cost, both_spec(r1, r2)));
                    }
                }
                return both(r1, r2);
            }
            k = k + 1;
        }
        // an intersection on the left: its sides join the meet
        let mut k: usize = 0;
        while k < lefts.len()
            invariant
                !some_pair_settled(s0, meet_shapes@, join_shapes@),
                pairs_asked(s0, mid, meet_shapes@, join_shapes@, false),
                self.progressed_from(mid),
                !(meet_shapes@.len() == 1 && join_shapes@.len() == 1),
                cost <= SUBSHAPE_MAX_COST,
                self.progressed_from(s0),
                s0.ready(),
                s0 == *old(self),
                all_stored(self.shapes(), lefts@),
                all_stored(self.shapes(), rights@),
                lefts@.len() > 0,
                rights@.len() > 0,
                lefts@.len() > 0,
                pl == plain_lists(mid, meet_shapes@, join_shapes@),
                !nr,
                nr == nothing_to_realize(mid, meet_shapes@, join_shapes@, realize_stuck_buffer@),
                *self == mid2 && lefts@ == gl && rights@ == gr && buffer@ == gb,
                mid2.progressed_from(mid2),
                realized_lists(mid, meet_shapes@, join_shapes@, realize_stuck_buffer@, mid2, gl, gr, gb),
                !(any_unresolved(mid, meet_shapes@ + join_shapes@) && gb.len() == realize_stuck_buffer@.len()),
                pl ==> *self == mid && lefts@ == meet_shapes@ && rights@ == join_shapes@,
                pl ==> !(all_empty_shapes(mid, meet_shapes@) || all_any_shapes(mid, join_shapes@)),
                !(all_empty_shapes(mid2, gl) || all_any_shapes(mid2, gr)),
                k <= lefts@.len(),
                forall|x: int| 0 <= x < gl.len() ==> form_of(#[trigger] mid2.shapes()[gl[x].0 as int].gut) != ShapeForm::Union,
                forall|x: int| 0 <= x < k ==> form_of(#[trigger] mid2.shapes()[gl[x].0 as int].gut) != ShapeForm::Intersection,
            decreases lefts@.len() - k,
        {
            proof {
                if pl {
                    assert(plain_shape(mid, meet_shapes@[k as int].0));
                }
            }
            if shape_form(&self.gsc_summary.kv_tables.computable_shape_table[lefts[k].0].gut) == ShapeForm::Intersection {
                let v = shape_parts_copy(&self.gsc_summary.kv_tables.computable_shape_table[lefts[k].0].gut);
                proof {
                    {
                        assert(!has_form(mid2, gl, ShapeForm::Union));
                        assert(first_of_form(mid2, gl, ShapeForm::Intersection, k as int));
                        let kk = choose|kk: int| first_of_form(mid2, gl, ShapeForm::Intersection, kk);
                        assert(kk == k) by {
                            if kk > k {
                                assert(form_of(mid2.shapes()[gl[k as int].0 as int].gut) != ShapeForm::Intersection);
                            }
                        }
                    }
                }
                if !(self.stored(v[0]) && self.stored(v[1])) {
                    proof {
                        {
                            assert(split_facts(mid2, *self, gl, gr, gb, cost, IsSubShapeResult::Stuck));
                        }
                    }
                    return IsSubShapeResult::Stuck;
                }
                let l = spliced(&lefts, k, v[0], v[1]);
                proof {
                    assert forall|x: int| 0 <= x < l@.len() implies (#[trigger] l@[x]).0 < self.shapes().len() by {
                        if x < k {
                            assert(l@[x] == lefts@[x]);
                        } else if x >= k + 2 {
                            assert(l@[x] == lefts@[x - 1]);
                        }
                    }
                }
                let ghost st = *self;
                let r = self.left_meet_right_join_in_computable_shape_is_subshape(l, rights, buffer, cost + 1);
                proof {
                    lemma_progress_trans(s0, st, *self);
                    lemma_progress_trans(mid, st, *self);
                    lemma_progress_trans(mid2, st, *self);
                    {
                        assert(split_facts(mid2, *self, gl, gr, gb, cost, r));
                    }
                }
                return r;
            }
            k = k + 1;
        }
        // a union on the right: its sides join the join
        let mut k: usize = 0;
        while k < rights.len()
            invariant
                !some_pair_settled(s0, meet_shapes@, join_shapes@),
                pairs_asked(s0, mid, meet_shapes@, join_shapes@, false),
                self.progressed_from(mid),
                !(meet_shapes@.len() == 1 && join_shapes@.len() == 1),
                cost <= SUBSHAPE_MAX_COST,
                self.progressed_from(s0),
                s0.ready(),
                s0 == *old(self),
                all_stored(self.shapes(), lefts@),
                all_stored(self.shapes(), rights@),
                lefts@.len() > 0,
                rights@.len() > 0,
                pl == plain_lists(mid, meet_shapes@, join_shapes@),
                !nr,
                nr == nothing_to_realize(mid, meet_shapes@, join_shapes@, realize_stuck_buffer@),
                *self == mid2 && lefts@ == gl && rights@ == gr && buffer@ == gb,
                mid2.progressed_from(mid2),
                realized_lists(mid, meet_shapes@, join_shapes@, realize_stuck_buffer@, mid2, gl, gr, gb),
                !(any_unresolved(mid, meet_shapes@ + join_shapes@) && gb.len() == realize_stuck_buffer@.len()),
                pl ==> *self == mid && lefts@ == meet_shapes@ && rights@ == join_shapes@,
                pl ==> !(all_empty_shapes(mid, meet_shapes@) || all_any_shapes(mid, join_shapes@)),
                !(all_empty_shapes(mid2, gl) || all_any_shapes(mid2, gr)),
                k <= rights@.len(),
                forall|x: int| 0 <= x < gl.len() ==> form_of(#[trigger] mid2.shapes()[gl[x].0 as int].gut) != ShapeForm::Union,
                forall|x: int| 0 <= x < gl.len() ==> form_of(#[trigger] mid2.shapes()[gl[x].0 as int].gut) != ShapeForm::Intersection,
                forall|x: int| 0 <= x < k ==> form_of(#[trigger] mid2.shapes()[gr[x].0 as int].gut) != ShapeForm::Union,
            decreases rights@.len() - k,
        {
            proof {
                if pl {
                    assert(plain_shape(mid, join_shapes@[k as int].0));
                }
            }
            if shape_form(&self.gsc_summary.kv_tables.computable_shape_table[rights[k].0].gut) == ShapeForm::Union {
                let v = shape_parts_copy(&self.gsc_summary.kv_tables.computable_shape_table[rights[k].0].gut);
                proof {
                    {
                        assert(!has_form(mid2, gl, ShapeForm::Union));
                        assert(!has_form(mid2, gl, ShapeForm::Intersection));
                        assert(first_of_form(mid2, gr, ShapeForm::Union, k as int));
                        let kk = choose|kk: int| first_of_form(mid2, gr, ShapeForm::Union, kk);
                        assert(kk == k) by {
                            if kk > k {
                                assert(form_of(mid2.shapes()[gr[k as int].0 as int].gut) != ShapeForm::Union);
                            }
                        }
                    }
                }
                if !(self.stored(v[0]) && self.stored(v[1])) {
                    proof {
                        {
                            assert(split_facts(mid2, *self, gl, gr, gb, cost, IsSubShapeResult::Stuck));
                        }
                    }
                    return IsSubShapeResult::Stuck;
                }
                let r = spliced(&rights, k, v[0], v[1]);
                proof {
                    assert forall|x: int| 0 <= x < r@.len() implies (#[trigger] r@[x]).0 < self.shapes().len() by {
                        if x < k {
                            assert(r@[x] == rights@[x]);
                        } else if x >= k + 2 {
                            assert(r@[x] == rights@[x - 1]);
                        }
                    }
                }
                let ghost st = *self;
                let res = self.left_meet_right_join_in_computable_shape_is_subshape(lefts, r, buffer, cost + 1);
                proof {
                    lemma_progress_trans(s0, st, *self);
                    lemma_progress_trans(mid, st, *self);
                    lemma_progress_trans(mid2, st, *self);
                    {
                        assert(split_facts(mid2, *self, gl, gr, gb, cost, res));
                    }
                }
                return res;
            }
            k = k + 1;
        }
        // an intersection on the right: the meet must be below both sides
        let mut k: usize = 0;
        while k < rights.len()
            invariant
                !some_pair_settled(s0, meet_shapes@, join_shapes@),
                pairs_asked(s0, mid, meet_shapes@, join_shapes@, false),
                self.progressed_from(mid),
                !(meet_shapes@.len() == 1 && join_shapes@.len() == 1),
                cost <= SUBSHAPE_MAX_COST,
                self.progressed_from(s0),
                s0.ready(),
                s0 == *old(self),
                all_stored(self.shapes(), lefts@),
                all_stored(self.shapes(), rights@),
                lefts@.len() > 0,
                rights@.len() > 0,
                pl == plain_lists(mid, meet_shapes@, join_shapes@),
                !nr,
                nr == nothing_to_realize(mid, meet_shapes@, join_shapes@, realize_stuck_buffer@),
                *self == mid2 && lefts@ == gl && rights@ == gr && buffer@ == gb,
                mid2.progressed_from(mid2),
                realized_lists(mid, meet_shapes@, join_shapes@, realize_stuck_buffer@, mid2, gl, gr, gb),
                !(any_unresolved(mid, meet_shapes@ + join_shapes@) && gb.len() == realize_stuck_buffer@.len()),
                pl ==> *self == mid && lefts@ == meet_shapes@ && rights@ == join_shapes@,
                pl ==> !(all_empty_shapes(mid, meet_shapes@) || all_any_shapes(mid, join_shapes@)),
                !(all_empty_shapes(mid2, gl) || all_any_shapes(mid2, gr)),
                k <= rights@.len(),
                forall|x: int| 0 <= x < gl.len() ==> form_of(#[trigger] mid2.shapes()[gl[x].0 as int].gut) != ShapeForm::Union,
                forall|x: int| 0 <= x < gl.len() ==> form_of(#[trigger] mid2.shapes()[gl[x].0 as int].gut) != ShapeForm::Intersection,
                forall|x: int| 0 <= x < gr.len() ==> form_of(#[trigger] mid2.shapes()[gr[x].0 as int].gut) != ShapeForm::Union,
                forall|x: int| 0 <= x < k ==> form_of(#[trigger] mid2.shapes()[gr[x].0 as int].gut) != ShapeForm::Intersection,
            decreases rights@.len() - k,
        {
            proof {
                if pl {
                    assert(plain_shape(mid, join_shapes@[k as int].0));
                }
            }
            if shape_form(&self.gsc_summary.kv_tables.computable_shape_table[rights[k].0].gut) == ShapeForm::Intersection {
                let v = shape_parts_copy(&self.gsc_summary.kv_tables.computable_shape_table[rights[k].0].gut);
                proof {
                    {
                        assert(!has_form(mid2, gl, ShapeForm::Union));
                        assert(!has_form(mid2, gl, ShapeForm::Intersection));
                        assert(!has_form(mid2, gr, ShapeForm::Union));
                        assert(first_of_form(mid2, gr, ShapeForm::Intersection, k as int));
                        let kk = choose|kk: int| first_of_form(mid2, gr, ShapeForm::Intersection, kk);
                        assert(kk == k) by {
                            if kk > k {
                                assert(form_of(mid2.shapes()[gr[k as int].0 as int].gut) != ShapeForm::Intersection);
                            }
                        }
                    }
                }
                if !(self.stored(v[0]) && self.stored(v[1])) {
                    proof {
                        {
                            assert(split_facts(mid2, *self, gl, gr, gb, cost, IsSubShapeResult::Stuck));
                        }
                    }
                    return IsSubShapeResult::Stuck;
                }
                let j1 = replaced(&rights, k, v[0]);
                let j2 = replaced(&rights, k, v[1]);
                let ghost st = *self;
                let b1 = copy_unresolved_list(&buffer);
                let ghost b1v = b1@;
                let r1 = self.left_meet_right_join_in_computable_shape_is_subshape(copy_keys(&lefts), j1, b1, cost + 1);
                let ghost s1 = *self;
                proof {
                    lemma_progress_trans(s0, st, *self);
                    lemma_progress_trans(mid, st, *self);
                    lemma_progress_trans(mid2, st, *self);
                }
                if r1.is_false() {
                    proof {
                        {
                            assert(same_buffers(b1v, gb));
                            assert(meet_join_facts(mid2, s1, gl, gr.update(k as int, v@[0]), b1v, (cost + 1) as usize, r1));
                            assert(reached(s1, r1));
                            assert(split_facts(mid2, *self, gl, gr, gb, cost, r1));
                        }
                    }
                    return r1;
                }
                let ghost st2 = *self;
                proof {
                    assert(all_stored(self.shapes(), j2@));
                }
                let r2 = self.left_meet_right_join_in_computable_shape_is_subshape(lefts, j2, buffer, cost + 1);
                proof {
                    lemma_progress_trans(s0, st2, *self);
                    lemma_progress_trans(mid, st2, *self);
                    lemma_progress_trans(mid2, st2, *self);
                    {
                        assert(same_buffers(b1v, gb));
                        assert(meet_join_facts(mid2, s1, gl, gr.update(k as int, v@[0]), b1v, (cost + 1) as usize, r1));
                        assert(meet_join_facts(s1, *self, gl, gr.update(k as int, v@[1]), gb, (cost + 1) as usize, r2));
                        assert(reached(s1, r1));
                        assert(reached(*self, r2));
                        assert(split_facts(mid2, *self, gl, gr, gb, cost, both_spec(r1, r2)));
                    }
                }
                return both(r1, r2);
            }
            k = k + 1;
        }
        // every shape elementary: the meet of the left against the join of the right
        let mut meet: Option<ElementaryPShape> = None;
        let mut k: usize = 0;
        while k < lefts.len()
            invariant
                !some_pair_settled(s0, meet_shapes@, join_shapes@),
                pairs_asked(s0, mid, meet_shapes@, join_shapes@, false),
                self.progressed_from(mid),
                !(meet_shapes@.len() == 1 && join_shapes@.len() == 1),
                cost <= SUBSHAPE_MAX_COST,
                self.progressed_from(s0),
                s0.ready(),
                s0 == *old(self),
                all_stored(self.shapes(), lefts@),
                all_stored(self.shapes(), rights@),
                lefts@.len() > 0,
                rights@.len() > 0,
                pl == plain_lists(mid, meet_shapes@, join_shapes@),
                !nr,
                nr == nothing_to_realize(mid, meet_shapes@, join_shapes@, realize_stuck_buffer@),
                *self == mid2 && lefts@ == gl && rights@ == gr && buffer@ == gb,
                mid2.progressed_from(mid2),
                realized_lists(mid, meet_shapes@, join_shapes@, realize_stuck_buffer@, mid2, gl, gr, gb),
                !(any_unresolved(mid, meet_shapes@ + join_shapes@) && gb.len() == realize_stuck_buffer@.len()),
                pl ==> *self == mid && lefts@ == meet_shapes@ && rights@ == join_shapes@,
                pl ==> !(all_empty_shapes(mid, meet_shapes@) || all_any_shapes(mid, join_shapes@)),
                !(all_empty_shapes(mid2, gl) || all_any_shapes(mid2, gr)),
                k <= lefts@.len(),
                all_elementary(mid2, gl.take(k as int)),
                k == 0 ==> meet is None,
                k > 0 ==> meet is Some && meet->0.gut == meet_gut(guts(mid2, gl.take(k as int))),
                forall|x: int| 0 <= x < gl.len() ==> form_of(#[trigger] mid2.shapes()[gl[x].0 as int].gut) != ShapeForm::Union,
                forall|x: int| 0 <= x < gl.len() ==> form_of(#[trigger] mid2.shapes()[gl[x].0 as int].gut) != ShapeForm::Intersection,
                forall|x: int| 0 <= x < gr.len() ==> form_of(#[trigger] mid2.shapes()[gr[x].0 as int].gut) != ShapeForm::Union,
                forall|x: int| 0 <= x < gr.len() ==> form_of(#[trigger] mid2.shapes()[gr[x].0 as int].gut) != ShapeForm::Intersection,
            decreases lefts@.len() - k,
        {
            let ghost tk = gl.take(k + 1);
            proof {
                {
                assert(tk.drop_last() =~= gl.take(k as int));
                assert(guts(mid2, tk).drop_last() =~= guts(mid2, gl.take(k as int)));
                assert(tk[k as int] == gl[k as int]);
                }
            }
            match &self.gsc_summary.kv_tables.computable_shape_table[lefts[k].0].gut {
                ComputableShapeGut::Elementary(e) => {
                    let e2 = ElementaryPShape { gut: e.gut, position: copy_position(&e.position) };
                    meet = match meet {
                        None => Some(e2),
                        Some(m) => Some(ElementaryPShape::pairwise_intersection(m, e2)),
                    };
                    proof {
                        {
                            assert(guts(mid2, tk).last() == e.gut);
                            assert(all_elementary(mid2, tk)) by {
                                assert forall|x: int| 0 <= x < tk.len() implies form_of(#[trigger] mid2.shapes()[tk[x].0 as int].gut)
                                    == ShapeForm::Elementary by {
                                    if x < k {
                                        assert(gl.take(k as int)[x] == tk[x]);
                                    }
                                }
                            }
                        }
                    }
                },
                _ => {
                    proof {
                        {
                            assert(form_of(mid2.shapes()[gl[k as int].0 as int].gut) != ShapeForm::Elementary);
                            assert(!all_elementary(mid2, gl));
                        }
                    }
                    return IsSubShapeResult::Stuck;
                },
            }
            k = k + 1;
        }
        proof {
            assert(gl.take(k as int) =~= gl);
        }
        let mut join: Option<ElementaryPShape> = None;
        let mut k: usize = 0;
        while k < rights.len()
            invariant
                !some_pair_settled(s0, meet_shapes@, join_shapes@),
                pairs_asked(s0, mid, meet_shapes@, join_shapes@, false),
                self.progressed_from(mid),
                !(meet_shapes@.len() == 1 && join_shapes@.len() == 1),
                cost <= SUBSHAPE_MAX_COST,
                self.progressed_from(s0),
                s0.ready(),
                s0 == *old(self),
                all_stored(self.shapes(), lefts@),
                all_stored(self.shapes(), rights@),
                lefts@.len() > 0,
                rights@.len() > 0,
                pl == plain_lists(mid, meet_shapes@, join_shapes@),
                !nr,
                nr == nothing_to_realize(mid, meet_shapes@, join_shapes@, realize_stuck_buffer@),
                *self == mid2 && lefts@ == gl && rights@ == gr && buffer@ == gb,
                mid2.progressed_from(mid2),
                realized_lists(mid, meet_shapes@, join_shapes@, realize_stuck_buffer@, mid2, gl, gr, gb),
                !(any_unresolved(mid, meet_shapes@ + join_shapes@) && gb.len() == realize_stuck_buffer@.len()),
                pl ==> *self == mid && lefts@ == meet_shapes@ && rights@ == join_shapes@,
                pl ==> !(all_empty_shapes(mid, meet_shapes@) || all_any_shapes(mid, join_shapes@)),
                !(all_empty_shapes(mid2, gl) || all_any_shapes(mid2, gr)),
                k <= rights@.len(),
                all_elementary(mid2, gl) && meet is Some && meet->0.gut == meet_gut(guts(mid2, gl)),
                all_elementary(mid2, gr.take(k as int)),
                k == 0 ==> join is None,
                k > 0 ==> join is Some && join_gut(guts(mid2, gr.take(k as int))) == Some(join->0.gut),
                forall|x: int| 0 <= x < gl.len() ==> form_of(#[trigger] mid2.shapes()[gl[x].0 as int].gut) != ShapeForm::Union,
                forall|x: int| 0 <= x < gl.len() ==> form_of(#[trigger] mid2.shapes()[gl[x].0 as int].gut) != ShapeForm::Intersection,
                forall|x: int| 0 <= x < gr.len() ==> form_of(#[trigger] mid2.shapes()[gr[x].0 as int].gut) != ShapeForm::Union,
                forall|x: int| 0 <= x < gr.len() ==> form_of(#[trigger] mid2.shapes()[gr[x].0 as int].gut) != ShapeForm::Intersection,
            decreases rights@.len() - k,
        {
            let ghost tk = gr.take(k + 1);
            proof {
                {
                assert(tk.drop_last() =~= gr.take(k as int));
                assert(guts(mid2, tk).drop_last() =~= guts(mid2, gr.take(k as int)));
                assert(tk[k as int] == gr[k as int]);
                assert(guts(mid2, gr).take(k + 1) =~= guts(mid2, tk));
                }
            }
            match &self.gsc_summary.kv_tables.computable_shape_table[rights[k].0].gut {
                ComputableShapeGut::Elementary(e) => {
                    let e2 = ElementaryPShape { gut: e.gut, position: copy_position(&e.position) };
                    proof {
                        {
                            assert(guts(mid2, tk).last() == e.gut);
                            assert(all_elementary(mid2, tk)) by {
                                assert forall|x: int| 0 <= x < tk.len() implies form_of(#[trigger] mid2.shapes()[tk[x].0 as int].gut)
                                    == ShapeForm::Elementary by {
                                    if x < k {
                                        assert(gr.take(k as int)[x] == tk[x]);
                                    }
                                }
                            }
                        }
                    }
                    join = match join {
                        None => Some(e2),
                        Some(m) => match ElementaryPShape::pairwise_union(m, e2) {
                            Some(u) => Some(u),
                            None => {
                                proof {
                                    {
                                        assert(join_gut(guts(mid2, tk)) is None);
                                        lemma_join_none(guts(mid2, gr), k + 1);
                                    }
                                }
                                return IsSubShapeResult::Stuck;
                            },
                        },
                    };
                },
                _ => {
                    proof {
                        {
                            assert(form_of(mid2.shapes()[gr[k as int].0 as int].gut) != ShapeForm::Elementary);
                            assert(!all_elementary(mid2, gr));
                        }
                    }
                    return IsSubShapeResult::Stuck;
                },
            }
            k = k + 1;
        }
        proof {
            assert(gr.take(k as int) =~= gr);
        }
        match (meet, join) {
            (Some(m), Some(j)) => if ElementaryPShape::pairwise_is_subset(&m, &j) {
                IsSubShapeResult::True
            } else {
                IsSubShapeResult::False
            },
            _ => IsSubShapeResult::Stuck,
        }
    }

    /// The lists of shapes a meet-join question starts from; the shapes
    /// are not merged.
    pub fn naive_merge(&mut self, meet_shapes: Vec<ComputableShapeKey>, join_shapes: Vec<ComputableShapeKey>) -> (res: (Vec<ComputableShapeKey>, Vec<ComputableShapeKey>))
        ensures
            res.0@ == meet_shapes@,
            res.1@ == join_shapes@,
            *final(self) == *old(self),
    {
        (meet_shapes, join_shapes)
    }

    /// Whether computable shape `potential_subshape` is a subshape of
    /// `potential_supershape`, asked at no cost so far.
    pub fn computable_shape_is_subshape(&mut self, potential_subshape: ComputableShapeKey, potential_supershape: ComputableShapeKey) -> (res: IsSubShapeResult)
        requires
            old(self).ready(),
            potential_subshape.0 < old(self).shapes().len(),
            potential_supershape.0 < old(self).shapes().len(),
        ensures
            final(self).progressed_from(*old(self)),
            answer_facts(*old(self), *final(self), potential_subshape.0, potential_supershape.0, res),
            ({
                let g1 = old(self).shapes()[potential_subshape.0 as int].gut;
                let g2 = old(self).shapes()[potential_supershape.0 as int].gut;
                (g1 is Mapping && g2 is Mapping) ==> all_asked(
                    *old(self),
                    *final(self),
                    seq![(g1->Mapping_0.0, g2->Mapping_0.0), (g1->Mapping_1.0, g2->Mapping_1.0)],
                    res,
                )
            }),
    {
        let ghost s0 = *self;
        let res = self.in_computable_shape_is_subshape(potential_subshape, potential_supershape, 0);
        proof {
            if s0.shapes()[potential_subshape.0 as int].gut is Mapping && s0.shapes()[potential_supershape.0 as int].gut is Mapping {
                lemma_mapping_parts_covariant(s0, *self, potential_subshape.0, potential_supershape.0, 0, res);
            }
        }
        res
    }

    /// Whether the shape described by `potential_subshape` is a subshape of
    /// the one described by `potential_supershape`, compared as computable
    /// shapes (built and recorded if need be); `None` where either
    /// description has no computable shape.
    pub fn shape_description_is_subshape(
        &mut self,
        potential_subshape: &ShapeDescriptionKey,
        potential_supershape: &ShapeDescriptionKey,
    ) -> (res: Option<IsSubShapeResult>)
        requires
            old(self).ready(),
        ensures
            final(self).progressed_from(*old(self)),
            description_ok(old(self).descriptions(), old(self).description_contexts(), potential_subshape.0 as int)
                && description_ok(old(self).descriptions(), old(self).description_contexts(), potential_supershape.0 as int)
                ==> res is Some,
            res matches Some(r) ==> exists|mid: GrandShapeContentSummaryAtWork| #[trigger] description_asked(
                *old(self),
                mid,
                *final(self),
                potential_subshape.0,
                potential_supershape.0,
                r,
            ),
    {
        let ghost s0 = *self;
        proof {
            lemma_progress_refl(*self);
        }
        let a = self.get_computable_shape_key(potential_subshape);
        let ghost s1 = *self;
        proof {
            lemma_progress_grown(s0, s1);
        }
        let b = self.get_computable_shape_key(potential_supershape);
        let ghost s2 = *self;
        proof {
            lemma_progress_grown(s1, s2);
            lemma_progress_trans(s0, s1, s2);
        }
        match (a, b) {
            (Some(ka), Some(kb)) => {
                proof {
                    lemma_two_recorded(s0, s1, s2, potential_subshape.0, potential_supershape.0, ka, kb);
                }
                let r = self.computable_shape_is_subshape(ka, kb);
                proof {
                    lemma_progress_trans(s0, s2, *self);
                    assert(description_asked(s0, s2, *self, potential_subshape.0, potential_supershape.0, r));
                }
                Some(r)
            },
            _ => None,
        }
    }
}

/// Whether `mid`, come from `st`, records a stored computable shape for
/// description `d`: the one `st` records where it records one, else one
/// built from the description (see `built_from`).
pub open spec fn recorded_shape_for(st: GrandShapeContentSummaryAtWork, mid: GrandShapeContentSummaryAtWork, d: usize) -> bool {
    let t = mid.gsc_summary.computable_shape_table.as_map();
    let t0 = st.gsc_summary.computable_shape_table.as_map();
    &&& t.dom().contains(d)
    &&& t[d].0 < mid.shapes().len()
    &&& t0.dom().contains(d) ==> t[d] == t0[d]
    &&& !t0.dom().contains(d) ==> built_from(mid.shapes(), t[d].0 as int, st.descriptions(), st.description_contexts(), d as int)
}

/// Whether `r` is the answer, asked in `st` and leaving `end`, to whether
/// the shape that description `a` describes is a subshape of the one that
/// description `b` describes: both are read into computable shapes (which
/// `mid` records), and the shape of `a` is asked against the shape of `b`.
pub open spec fn description_asked(
    st: GrandShapeContentSummaryAtWork,
    mid: GrandShapeContentSummaryAtWork,
    end: GrandShapeContentSummaryAtWork,
    a: usize,
    b: usize,
    r: IsSubShapeResult,
) -> bool {
    let t = mid.gsc_summary.computable_shape_table.as_map();
    &&& mid.progressed_from(st)
    &&& end.progressed_from(mid)
    &&& recorded_shape_for(st, mid, a)
    &&& recorded_shape_for(st, mid, b)
    &&& answer_facts(mid, end, t[a].0, t[b].0, r)
}

/// Whether description `d` of `st` stands for the elementary shape `e`:
/// the shape `st` records for it is elementary `e`, or, where it records
/// none, the description is elementary `e`.
pub open spec fn describes_elementary(st: GrandShapeContentSummaryAtWork, d: usize, e: ElementaryShape) -> bool {
    let t0 = st.gsc_summary.computable_shape_table.as_map();
    if t0.dom().contains(d) {
        t0[d].0 < st.shapes().len() && (st.shapes()[t0[d].0 as int].gut matches ComputableShapeGut::Elementary(ep) && ep.gut == e)
    } else {
        d < st.descriptions().len() && st.descriptions()[d as int].gut == ShapeDescriptionGut::Elementary(e)
    }
}

/// Where two descriptions stand for elementary shapes, the answer to
/// whether the first describes a subshape of the second is yes exactly
/// when the first elementary shape is a subset of the second: the first is
/// the subshape, the second the supershape.
pub proof fn lemma_elementary_descriptions_answer(
    st: GrandShapeContentSummaryAtWork,
    mid: GrandShapeContentSummaryAtWork,
    end: GrandShapeContentSummaryAtWork,
    a: usize,
    b: usize,
    r: IsSubShapeResult,
    e1: ElementaryShape,
    e2: ElementaryShape,
)
    requires
        description_asked(st, mid, end, a, b, r),
        describes_elementary(st, a, e1),
        describes_elementary(st, b, e2),
    ensures
        r == (if elementary_subset(e1, e2) { IsSubShapeResult::True } else { IsSubShapeResult::False }),
{
    lemma_recorded_elementary(st, mid, a, e1);
    lemma_recorded_elementary(st, mid, b, e2);
}

/// The shape `mid` records for a description that stands for an
/// elementary shape in `st` is that elementary shape.
proof fn lemma_recorded_elementary(st: GrandShapeContentSummaryAtWork, mid: GrandShapeContentSummaryAtWork, d: usize, e: ElementaryShape)
    requires
        mid.progressed_from(st),
        recorded_shape_for(st, mid, d),
        describes_elementary(st, d, e),
    ensures
        ({
            let k = mid.gsc_summary.computable_shape_table.as_map()[d].0;
            mid.shapes()[k as int].gut matches ComputableShapeGut::Elementary(ep) && ep.gut == e
        }),
{
    let t0 = st.gsc_summary.computable_shape_table.as_map();
    if t0.dom().contains(d) {
        let k = t0[d].0;
        assert(mid.shapes().take(st.shapes().len() as int)[k as int] == mid.shapes()[k as int]);
    }
}

/// Reading two descriptions in turn into computable shapes, from `s0`
/// through `s1` to `s2`, leaves `s2` recording a shape for each: the keys
/// that came back.
proof fn lemma_two_recorded(
    s0: GrandShapeContentSummaryAtWork,
    s1: GrandShapeContentSummaryAtWork,
    s2: GrandShapeContentSummaryAtWork,
    a: usize,
    b: usize,
    ka: ComputableShapeKey,
    kb: ComputableShapeKey,
)
    requires
        s0.ready(),
        s1.grown_from(s0),
        s2.grown_from(s1),
        s2.ready(),
        ka.0 < s1.shapes().len(),
        kb.0 < s2.shapes().len(),
        s0.gsc_summary.computable_shape_table.has(a) ==> ka == s0.gsc_summary.computable_shape_table.at(a) && s1 == s0,
        !s0.gsc_summary.computable_shape_table.has(a) ==> built_from(s1.shapes(), ka.0 as int, s0.descriptions(), s0.description_contexts(), a as int)
            && s1.gsc_summary.computable_shape_table.as_map() == s0.gsc_summary.computable_shape_table.as_map().insert(a, ka),
        s1.gsc_summary.computable_shape_table.has(b) ==> kb == s1.gsc_summary.computable_shape_table.at(b) && s2 == s1,
        !s1.gsc_summary.computable_shape_table.has(b) ==> built_from(s2.shapes(), kb.0 as int, s1.descriptions(), s1.description_contexts(), b as int)
            && s2.gsc_summary.computable_shape_table.as_map() == s1.gsc_summary.computable_shape_table.as_map().insert(b, kb),
    ensures
        recorded_shape_for(s0, s2, a),
        recorded_shape_for(s0, s2, b),
        s2.gsc_summary.computable_shape_table.as_map()[a] == ka,
        s2.gsc_summary.computable_shape_table.as_map()[b] == kb,
{
    let t0 = s0.gsc_summary.computable_shape_table.as_map();
    let t1 = s1.gsc_summary.computable_shape_table.as_map();
    let t2 = s2.gsc_summary.computable_shape_table.as_map();
    assert(t1.dom().contains(a) && t1[a] == ka);
    assert(forall|d: usize| t0.dom().contains(d) ==> t1.dom().contains(d) && #[trigger] t1[d] == t0[d]);
    assert(t2.dom().contains(b) && t2[b] == kb);
    assert(forall|d: usize| t1.dom().contains(d) ==> t2.dom().contains(d) && #[trigger] t2[d] == t1[d]);
    if !t0.dom().contains(a) {
        lemma_built_from_extend(s1.shapes(), s2.shapes(), ka.0 as int, s0.descriptions(), s0.description_contexts(), a as int);
    }
    if !t0.dom().contains(b) && !t1.dom().contains(b) {
        assert(s1.descriptions() == s0.descriptions());
    }
}

/// A copy of a list of keys.
fn copy_keys(v: &Vec<ComputableShapeKey>) -> (res: Vec<ComputableShapeKey>)
    ensures
        res@ == v@,
{
    let mut res: Vec<ComputableShapeKey> = Vec::new();
    let mut i: usize = 0;
    while i < v.len()
        invariant
            i <= v@.len(),
            res@ == v@.take(i as int),
        decreases v@.len() - i,
    {
        res.push(v[i]);
        proof {
            assert(v@.take(i + 1) =~= v@.take(i as int).push(v@[i as int]));
        }
        i = i + 1;
    }
    proof {
        assert(v@.take(v@.len() as int) =~= v@);
    }
    res
}

} // verus!
