use vstd::prelude::*;
use crate::keyed::{KeyView, KeyedMap};
use crate::parsed::PositionView;
use crate::route::RouteView;
use crate::shape_build::{Parts, description_ok, description_parts};
use crate::shape_data::{GenericParamDef, ShapeContentHeadKey, ShapeDescription, ShapeDescriptionContext, ShapeDescriptionGut, ShapeHeadView, UnresolvedShape};
use crate::display::head_text;
use crate::computable_shape::IsSubShapeResult;
use crate::subshape::description_asked;
use crate::shape_errors::{
    ShapeGraphError, ShapeContentCheckError, ShapeContentCheckErrorKind, ShapeDefinitionResolutionError, ShapeDefinitionResolutionErrorKind,
};
use crate::shape_keys::{ShapeContentKey, ShapeDescriptionKey};
use crate::shape_summary::{GrandShapeContentSummaryAtWork, KVTables};

verus! {

/// A generic-guard question to ask: the shape whose contents are checked,
/// the shape whose parameter is guarded, the argument given and the guard.
pub type GuardTask = (ShapeContentHeadKey, ShapeContentHeadKey, ShapeDescriptionKey, ShapeDescriptionKey);

/// The abstract value of a guard task.
pub type GuardTaskView = (ShapeHeadView, ShapeHeadView, usize, usize);

/// The abstract value of an error about a wrong number of generic
/// arguments: where, the shape used, the number of arguments given and the
/// number of parameters it takes.
pub type SizeErrorView = (PositionView, RouteView, nat, nat);

/// The view of a guard task.
pub open spec fn task_view(t: GuardTask) -> GuardTaskView {
    (t.0@, t.1@, t.2.0, t.3.0)
}

/// Whether `e` is the error `v` about a wrong number of generic arguments.
pub open spec fn is_size_error(e: ShapeDefinitionResolutionError, v: SizeErrorView) -> bool {
    &&& e.position@ == v.0
    &&& e.kind matches ShapeDefinitionResolutionErrorKind::ShapeContentCheck(c)
    &&& c.position@ == v.0
    &&& c.kind matches ShapeContentCheckErrorKind::GenericParamSizeIncompatible { expected, found, shape_route }
    &&& shape_route@ == v.1
    &&& expected == v.2
    &&& found == v.3
}

/// The generic parameters of the shape defined at `route`: `None` where
/// no contents are recorded for it, no parameters where its contents name
/// no stored parameter list.
pub open spec fn slots_of(t: KVTables, heads: KeyedMap<ShapeContentHeadKey, ShapeContentKey>, route: RouteView) -> Option<Seq<GenericParamDef>> {
    let hk = ShapeHeadView::Custom(route);
    if !heads.has(hk) || heads.at(hk).0 >= t.shape_content_table@.len() {
        None
    } else {
        match t.shape_content_table@[heads.at(hk).0 as int].generic_params_key {
            Some(gk) => if gk.0 < t.generic_param_description_table@.len() {
                Some(t.generic_param_description_table@[gk.0 as int].params@)
            } else {
                Some(Seq::empty())
            },
            None => Some(Seq::empty()),
        }
    }
}

/// The guard tasks of the arguments `args` given to the parameters
/// `slots` of the shape at `route`, in order: one for each guarded
/// parameter.
pub open spec fn guard_tasks(head: ShapeHeadView, route: RouteView, args: Seq<ShapeDescriptionKey>, slots: Seq<GenericParamDef>) -> Seq<GuardTaskView>
    decreases args.len(),
{
    if args.len() == 0 || slots.len() == 0 {
        Seq::empty()
    } else {
        let rest = guard_tasks(head, route, args.drop_last(), slots.drop_last());
        match slots.last() {
            GenericParamDef::Variable(_) => rest,
            GenericParamDef::Guarded(_, g) => rest.push((head, ShapeHeadView::Custom(route), args.last().0, g.0)),
        }
    }
}

/// The errors about wrong numbers of generic arguments found in
/// description `d` (and the descriptions stored before it that it is made
/// of), and the guard tasks of its outermost uses of generic shapes, in
/// order.  A use of a shape without recorded contents is skipped.
pub open spec fn fit(t: KVTables, heads: KeyedMap<ShapeContentHeadKey, ShapeContentKey>, head: ShapeHeadView, d: int) -> (Seq<SizeErrorView>, Seq<GuardTaskView>)
    decreases d, 1int, 0int,
{
    let ds = t.shape_description_table@;
    if d < 0 || d >= ds.len() {
        (Seq::empty(), Seq::empty())
    } else {
        match ds[d].gut {
            ShapeDescriptionGut::Unresolved(UnresolvedShape::Specified(r, args)) => match slots_of(t, heads, r@) {
                None => (Seq::empty(), Seq::empty()),
                Some(slots) => if args.len() != slots.len() {
                    (seq![(ds[d].pos@, r@, args.len() as nat, slots.len())], Seq::empty())
                } else {
                    (fit_list(t, heads, head, args@, d).0, guard_tasks(head, r@, args@, slots))
                },
            },
            ShapeDescriptionGut::ParenSingle(c) => fit_list(t, heads, head, seq![c], d),
            ShapeDescriptionGut::Array(c) => fit_list(t, heads, head, seq![c], d),
            ShapeDescriptionGut::Tuple(v) => fit_list(t, heads, head, v@, d),
            ShapeDescriptionGut::Mapping { key, value } => fit_list(t, heads, head, seq![key, value], d),
            ShapeDescriptionGut::Struct(m) => fit_list(t, heads, head, m.values(), d),
            ShapeDescriptionGut::Function { args, ret } => fit_list(t, heads, head, args@.push(ret), d),
            ShapeDescriptionGut::Union(a, b) => fit_list(t, heads, head, seq![a, b], d),
            ShapeDescriptionGut::Intersection(a, b) => fit_list(t, heads, head, seq![a, b], d),
            _ => (Seq::empty(), Seq::empty()),
        }
    }
}

/// `fit` of part `c` of description `d`; nothing where the part is not
/// stored before `d`.
pub open spec fn fit_child(t: KVTables, heads: KeyedMap<ShapeContentHeadKey, ShapeContentKey>, head: ShapeHeadView, c: ShapeDescriptionKey, d: int) -> (Seq<SizeErrorView>, Seq<GuardTaskView>)
    decreases d, 0int, 0int,
{
    if 0 <= c.0 < d {
        fit(t, heads, head, c.0 as int)
    } else {
        (Seq::empty(), Seq::empty())
    }
}

/// `fit` of parts `ks` of description `d`, one after the other.
pub open spec fn fit_list(t: KVTables, heads: KeyedMap<ShapeContentHeadKey, ShapeContentKey>, head: ShapeHeadView, ks: Seq<ShapeDescriptionKey>, d: int) -> (Seq<SizeErrorView>, Seq<GuardTaskView>)
    decreases d, 0int, ks.len(),
{
    if ks.len() == 0 {
        (Seq::empty(), Seq::empty())
    } else {
        let a = fit_list(t, heads, head, ks.drop_last(), d);
        let b = fit_child(t, heads, head, ks.last(), d);
        (a.0 + b.0, a.1 + b.1)
    }
}

impl<'a> GrandShapeContentSummaryAtWork<'a> {
    /// Whether only the errors differ from `old`.
    pub open spec fn same_but_errors(&self, old: Self) -> bool {
        &&& self.grand_module_skeleton_table == old.grand_module_skeleton_table
        &&& self.grand_module_merge_table == old.grand_module_merge_table
        &&& self.gsc_summary.kv_tables == old.gsc_summary.kv_tables
        &&& self.gsc_summary.shape_content_heads == old.gsc_summary.shape_content_heads
        &&& self.gsc_summary.operation_content_heads == old.gsc_summary.operation_content_heads
        &&& self.gsc_summary.bind_content_heads == old.gsc_summary.bind_content_heads
        &&& self.gsc_summary.operator_content_heads == old.gsc_summary.operator_content_heads
        &&& self.gsc_summary.coerce_content_heads == old.gsc_summary.coerce_content_heads
        &&& self.gsc_summary.computable_shape_table == old.gsc_summary.computable_shape_table
        &&& self.gsc_summary.ecs_key_table == old.gsc_summary.ecs_key_table
        &&& self.gsc_summary.sub_shape_table_buffer == old.gsc_summary.sub_shape_table_buffer
        &&& self.gsc_summary.bind_name_table == old.gsc_summary.bind_name_table
        &&& self.gsc_summary.graph == old.gsc_summary.graph
    }

    /// Whether the errors of this summary are those of `old` followed by
    /// the errors `es` about wrong numbers of generic arguments.
    pub open spec fn size_errors_added(&self, old: Self, es: Seq<SizeErrorView>) -> bool {
        let n = old.gsc_summary.errors@.len();
        &&& self.gsc_summary.errors@.len() == n + es.len()
        &&& self.gsc_summary.errors@.take(n as int) == old.gsc_summary.errors@
        &&& forall|j: int| 0 <= j < es.len() ==> is_size_error(#[trigger] self.gsc_summary.errors@[n + j], es[j])
    }

    /// Records an error of shape definition resolution.
    pub fn add_error(&mut self, error: ShapeDefinitionResolutionError)
        ensures
            final(self).same_but_errors(*old(self)),
            final(self).gsc_summary.errors@ == old(self).gsc_summary.errors@.push(error),
    {
        self.gsc_summary.errors.push(error);
    }
}

/// Adding no errors, then `a`, then `b`, is adding `a + b`.
proof fn lemma_size_errors_trans(
    s0: GrandShapeContentSummaryAtWork,
    s1: GrandShapeContentSummaryAtWork,
    s2: GrandShapeContentSummaryAtWork,
    a: Seq<SizeErrorView>,
    b: Seq<SizeErrorView>,
)
    requires
        s1.size_errors_added(s0, a),
        s2.size_errors_added(s1, b),
    ensures
        s2.size_errors_added(s0, a + b),
{
    let n0 = s0.gsc_summary.errors@.len();
    let n1 = s1.gsc_summary.errors@.len();
    let e2 = s2.gsc_summary.errors@;
    assert(e2.take(n0 as int) =~= s0.gsc_summary.errors@) by {
        assert forall|i: int| 0 <= i < n0 implies e2[i] == s0.gsc_summary.errors@[i] by {
            assert(e2.take(n1 as int)[i] == s1.gsc_summary.errors@[i]);
            assert(s1.gsc_summary.errors@.take(n0 as int)[i] == s0.gsc_summary.errors@[i]);
        }
    }
    assert forall|j: int| 0 <= j < (a + b).len() implies is_size_error(#[trigger] e2[n0 + j], (a + b)[j]) by {
        if j < a.len() {
            assert(e2.take(n1 as int)[n0 + j] == s1.gsc_summary.errors@[n0 + j]);
            assert(is_size_error(s1.gsc_summary.errors@[n0 + j], a[j]));
        } else {
            assert(is_size_error(e2[n1 + (j - a.len())], b[j - a.len()]));
        }
    }
}

/// A summary has added no errors to itself.
proof fn lemma_size_errors_refl(s: GrandShapeContentSummaryAtWork)
    ensures
        s.size_errors_added(s, Seq::empty()),
{
    assert(s.gsc_summary.errors@.take(s.gsc_summary.errors@.len() as int) =~= s.gsc_summary.errors@);
}

impl<'a> GrandShapeContentSummaryAtWork<'a> {
    /// `does_in_shape_generic_size_fit` of parts `ks` of description
    /// `bound`, one after the other; parts not stored before `bound` are
    /// skipped.
    fn fit_keys(&mut self, head: &ShapeContentHeadKey, ks: &Vec<ShapeDescriptionKey>, bound: usize) -> (res: Vec<GuardTask>)
        ensures
            final(self).same_but_errors(*old(self)),
            final(self).size_errors_added(*old(self), fit_list(old(self).gsc_summary.kv_tables, old(self).gsc_summary.shape_content_heads, head@, ks@, bound as int).0),
            res@.map_values(|t: GuardTask| task_view(t)) == fit_list(old(self).gsc_summary.kv_tables, old(self).gsc_summary.shape_content_heads, head@, ks@, bound as int).1,
        decreases bound, 0int,
    {
        let ghost t = self.gsc_summary.kv_tables;
        let ghost heads = self.gsc_summary.shape_content_heads;
        let ghost s0 = *self;
        proof {
            lemma_size_errors_refl(*self);
        }
        let mut res: Vec<GuardTask> = Vec::new();
        let mut i: usize = 0;
        while i < ks.len()
            invariant
                i <= ks@.len(),
                s0 == *old(self),
                t == s0.gsc_summary.kv_tables,
                heads == s0.gsc_summary.shape_content_heads,
                self.same_but_errors(s0),
                self.size_errors_added(s0, fit_list(t, heads, head@, ks@.take(i as int), bound as int).0),
                res@.map_values(|x: GuardTask| task_view(x)) == fit_list(t, heads, head@, ks@.take(i as int), bound as int).1,
            decreases ks@.len() - i,
        {
            let c = ks[i];
            let ghost st = *self;
            let mut r = if c.0 < bound {
                self.does_in_shape_generic_size_fit(head, &c)
            } else {
                proof {
                    lemma_size_errors_refl(*self);
                }
                Vec::new()
            };
            let ghost rv = r@.map_values(|x: GuardTask| task_view(x));
            let ghost before = res@.map_values(|x: GuardTask| task_view(x));
            res.append(&mut r);
            proof {
                assert(ks@.take(i + 1).drop_last() =~= ks@.take(i as int));
                assert(ks@.take(i + 1).last() == c);
                lemma_size_errors_trans(s0, st, *self, fit_list(t, heads, head@, ks@.take(i as int), bound as int).0,
                    fit_child(t, heads, head@, c, bound as int).0);
                assert(res@.map_values(|x: GuardTask| task_view(x)) =~= before + rv);
            }
            i = i + 1;
        }
        proof {
            assert(ks@.take(ks@.len() as int) =~= ks@);
        }
        res
    }

    /// Checks that every use of a generic shape in description
    /// `shape_description_key` gives as many arguments as the shape has
    /// parameters, recording an error for each use that does not, and
    /// hands back the guard tasks of the outermost uses (see `fit`).  Uses
    /// of shapes without recorded contents are skipped, and a shape whose
    /// contents name no stored parameter list takes no parameters.
    pub fn does_in_shape_generic_size_fit(&mut self, shape_content_head_key: &ShapeContentHeadKey, shape_description_key: &ShapeDescriptionKey) -> (res: Vec<GuardTask>)
        ensures
            final(self).same_but_errors(*old(self)),
            final(self).size_errors_added(*old(self), fit(old(self).gsc_summary.kv_tables, old(self).gsc_summary.shape_content_heads, shape_content_head_key@, shape_description_key.0 as int).0),
            res@.map_values(|t: GuardTask| task_view(t)) == fit(old(self).gsc_summary.kv_tables, old(self).gsc_summary.shape_content_heads, shape_content_head_key@, shape_description_key.0 as int).1,
        decreases shape_description_key.0, 1int,
    {
        let ghost t = self.gsc_summary.kv_tables;
        let ghost heads = self.gsc_summary.shape_content_heads;
        let ghost hv = shape_content_head_key@;
        proof {
            lemma_size_errors_refl(*self);
        }
        let d = shape_description_key.0;
        if d >= self.gsc_summary.kv_tables.shape_description_table.len() {
            return Vec::new();
        }
        let parts = description_parts(&self.gsc_summary.kv_tables.shape_description_table, d);
        let pos = self.gsc_summary.kv_tables.shape_description_table[d].pos.duplicate();
        let ghost g = t.shape_description_table@[d as int].gut;
        match parts {
            Parts::Specified(route, args) => {
                let content_key = match self.gsc_summary.shape_content_heads.get(&ShapeContentHeadKey::Custom(route.duplicate())) {
                    Some(k) => *k,
                    None => {
                        return Vec::new();
                    },
                };
                if content_key.0 >= self.gsc_summary.kv_tables.shape_content_table.len() {
                    return Vec::new();
                }
                let ghost slots = slots_of(t, heads, route@).unwrap();
                let mut guards: Vec<Option<ShapeDescriptionKey>> = Vec::new();
                match self.gsc_summary.kv_tables.shape_content_table[content_key.0].generic_params_key {
                    Some(gk) => {
                        if gk.0 < self.gsc_summary.kv_tables.generic_param_description_table.len() {
                            let params = &self.gsc_summary.kv_tables.generic_param_description_table[gk.0].params;
                            let mut j: usize = 0;
                            while j < params.len()
                                invariant
                                    j <= params@.len(),
                                    slots == params@,
                                    guards@.len() == j,
                                    forall|x: int| 0 <= x < j ==> #[trigger] guards@[x] == match params@[x] {
                                        GenericParamDef::Variable(_) => None,
                                        GenericParamDef::Guarded(_, g) => Some(g),
                                    },
                                decreases params@.len() - j,
                            {
                                match &params[j] {
                                    GenericParamDef::Variable(_) => guards.push(None),
                                    GenericParamDef::Guarded(_, g) => guards.push(Some(*g)),
                                }
                                j = j + 1;
                            }
                        }
                    },
                    None => {},
                }
                proof {
                    assert(guards@.len() == slots.len());
                }
                if args.len() != guards.len() {
                    let e = ShapeContentCheckError::generic_param_size_incompatible(pos, route, args.len(), guards.len());
                    self.add_error(ShapeDefinitionResolutionError::from_shape_content_check(e));
                    proof {
                        let v = (t.shape_description_table@[d as int].pos@, route@, args@.len(), slots.len());
                        assert(fit(t, heads, hv, d as int).0 == seq![v]);
                        assert(self.gsc_summary.errors@.take(old(self).gsc_summary.errors@.len() as int) =~= old(self).gsc_summary.errors@);
                        assert(is_size_error(self.gsc_summary.errors@[old(self).gsc_summary.errors@.len() as int], v));
                    }
                    return Vec::new();
                }
                let _ = self.fit_keys(shape_content_head_key, &args, d);
                let mut res: Vec<GuardTask> = Vec::new();
                let mut i: usize = 0;
                while i < args.len()
                    invariant
                        i <= args@.len(),
                        hv == shape_content_head_key@,
                        args@.len() == guards@.len(),
                        guards@.len() == slots.len(),
                        forall|x: int| 0 <= x < slots.len() ==> #[trigger] guards@[x] == match slots[x] {
                            GenericParamDef::Variable(_) => None,
                            GenericParamDef::Guarded(_, g) => Some(g),
                        },
                        res@.map_values(|x: GuardTask| task_view(x)) == guard_tasks(hv, route@, args@.take(i as int), slots.take(i as int)),
                    decreases args@.len() - i,
                {
                    let ghost before = res@.map_values(|x: GuardTask| task_view(x));
                    match guards[i] {
                        Some(g) => {
                            let h1 = shape_content_head_key.key_dup();
                            let h2 = ShapeContentHeadKey::Custom(route.duplicate());
                            let a = args[i];
                            proof {
                                assert(h1@ == hv);
                                assert(h2@ == ShapeHeadView::Custom(route@));
                            }
                            let task = (h1, h2, a, g);
                            res.push(task);
                            proof {
                                assert(task_view(task) == (hv, ShapeHeadView::Custom(route@), args@[i as int].0, g.0));
                                assert(res@.map_values(|x: GuardTask| task_view(x)) =~= before.push(task_view(task)));
                            }
                        },
                        None => {},
                    }
                    proof {
                        assert(args@.take(i + 1).drop_last() =~= args@.take(i as int));
                        assert(slots.take(i + 1).drop_last() =~= slots.take(i as int));
                        assert(guards@[i as int] == match slots[i as int] {
                            GenericParamDef::Variable(_) => None,
                            GenericParamDef::Guarded(_, g) => Some(g),
                        });
                        assert(slots.take(i + 1).last() == slots[i as int]);
                        assert(args@.take(i + 1).last() == args@[i as int]);
                    }
                    i = i + 1;
                }
                proof {
                    assert(args@.take(args@.len() as int) =~= args@);
                    assert(slots.take(slots.len() as int) =~= slots);
                }
                res
            },
            Parts::Paren(c) => {
                let v = vec![c];
                proof {
                    assert(v@ =~= seq![c]);
                }
                self.fit_keys(shape_content_head_key, &v, d)
            },
            Parts::Array(c) => {
                let v = vec![c];
                proof {
                    assert(v@ =~= seq![c]);
                }
                self.fit_keys(shape_content_head_key, &v, d)
            },
            Parts::Tuple(v) => self.fit_keys(shape_content_head_key, &v, d),
            Parts::Mapping(a, b) => {
                let v = vec![a, b];
                proof {
                    assert(v@ =~= seq![a, b]);
                }
                self.fit_keys(shape_content_head_key, &v, d)
            },
            Parts::Struct(_, vals) => self.fit_keys(shape_content_head_key, &vals, d),
            Parts::Function(args, ret) => {
                let mut v = args;
                v.push(ret);
                self.fit_keys(shape_content_head_key, &v, d)
            },
            Parts::Union(a, b) => {
                let v = vec![a, b];
                proof {
                    assert(v@ =~= seq![a, b]);
                }
                self.fit_keys(shape_content_head_key, &v, d)
            },
            Parts::Intersection(a, b) => {
                let v = vec![a, b];
                proof {
                    assert(v@ =~= seq![a, b]);
                }
                self.fit_keys(shape_content_head_key, &v, d)
            },
            _ => Vec::new(),
        }
    }

    /// The guard tasks of the contents recorded for
    /// `shape_content_head_key`: `does_in_shape_generic_size_fit` of its
    /// description; nothing where no contents are recorded for it.
    pub fn does_shape_generic_size_fit(&mut self, shape_content_head_key: ShapeContentHeadKey) -> (res: Vec<GuardTask>)
        ensures
            final(self).same_but_errors(*old(self)),
            ({
                let heads = old(self).gsc_summary.shape_content_heads;
                let cs = old(self).gsc_summary.kv_tables.shape_content_table@;
                let hv = shape_content_head_key@;
                if heads.has(hv) && heads.at(hv).0 < cs.len() {
                    let f = fit(old(self).gsc_summary.kv_tables, heads, hv, cs[heads.at(hv).0 as int].description_key.0 as int);
                    final(self).size_errors_added(*old(self), f.0) && res@.map_values(|t: GuardTask| task_view(t)) == f.1
                } else {
                    *final(self) == *old(self) && res@.len() == 0
                }
            }),
    {
        let content_key = match self.gsc_summary.shape_content_heads.get(&shape_content_head_key) {
            Some(k) => *k,
            None => {
                return Vec::new();
            },
        };
        if content_key.0 >= self.gsc_summary.kv_tables.shape_content_table.len() {
            return Vec::new();
        }
        let dk = self.gsc_summary.kv_tables.shape_content_table[content_key.0].description_key;
        self.does_in_shape_generic_size_fit(&shape_content_head_key, &dk)
    }
}

/// What checking the sizes of the contents recorded under `head` gives: the
/// errors and guard tasks of `fit` on its description; nothing where no
/// stored contents are recorded under it.
pub open spec fn head_fit(t: KVTables, heads: KeyedMap<ShapeContentHeadKey, ShapeContentKey>, head: ShapeHeadView) -> (Seq<SizeErrorView>, Seq<GuardTaskView>) {
    let cs = t.shape_content_table@;
    if heads.has(head) && heads.at(head).0 < cs.len() {
        fit(t, heads, head, cs[heads.at(head).0 as int].description_key.0 as int)
    } else {
        (Seq::empty(), Seq::empty())
    }
}

/// What checking the sizes of the contents recorded under each of `keys`,
/// in order, gives: their errors and guard tasks, one after the other.
pub open spec fn heads_fit(t: KVTables, heads: KeyedMap<ShapeContentHeadKey, ShapeContentKey>, keys: Seq<ShapeHeadView>) -> (Seq<SizeErrorView>, Seq<GuardTaskView>)
    decreases keys.len(),
{
    if keys.len() == 0 {
        (Seq::empty(), Seq::empty())
    } else {
        let before = heads_fit(t, heads, keys.drop_last());
        let h = head_fit(t, heads, keys.last());
        (before.0 + h.0, before.1 + h.1)
    }
}

/// Whether `e` is the error reported for the guard task `t` whose subshape
/// question came out `r`, with descriptions `ds`: for no, a failing guard
/// at the argument's position naming both contents; for an undecided or
/// too costly question, an undecided subshape question at the guard's
/// position.
pub open spec fn guard_error_is(e: ShapeDefinitionResolutionError, t: GuardTaskView, r: IsSubShapeResult, ds: Seq<ShapeDescription>) -> bool {
    match r {
        IsSubShapeResult::False => {
            &&& e.position@ == ds[t.2 as int].pos@
            &&& match e.kind {
                ShapeDefinitionResolutionErrorKind::ShapeContentCheck(c) => c.position@ == ds[t.2 as int].pos@
                    && match c.kind {
                    ShapeContentCheckErrorKind::GenericGuardFails { this_content_name, that_content_name } => this_content_name@
                        == head_text(t.0) && that_content_name@ == head_text(t.1),
                    _ => false,
                },
                _ => false,
            }
        },
        IsSubShapeResult::True => false,
        _ => {
            &&& e.position@ == ds[t.3 as int].pos@
            &&& match e.kind {
                ShapeDefinitionResolutionErrorKind::ShapeGraph(g) => g.position@ == ds[t.3 as int].pos@
                    && g.kind is IsSubShapeStuck,
                _ => false,
            }
        },
    }
}

/// Whether `a` can be the answer to the subshape question of guard task
/// `t`, with descriptions `ds` and contexts `cs`: one is asked only where
/// both descriptions are stored, and is answered wherever both can be
/// read into computable shapes.
pub open spec fn guard_answered(ds: Seq<ShapeDescription>, cs: Seq<ShapeDescriptionContext>, t: GuardTaskView, a: Option<IsSubShapeResult>) -> bool {
    &&& a is Some ==> t.2 < ds.len() && t.3 < ds.len()
    &&& t.2 < ds.len() && t.3 < ds.len() && description_ok(ds, cs, t.2 as int) && description_ok(ds, cs, t.3 as int) ==> a is Some
}

/// Whether the answer `a` to the subshape question of guard task `t` is
/// the answer to whether the argument's shape is a subshape of the guard's
/// (the argument on the sub side, the guard on the super side), asked in a
/// summary with the descriptions `ds` and contexts `cs`.
pub open spec fn guard_asked(ds: Seq<ShapeDescription>, cs: Seq<ShapeDescriptionContext>, t: GuardTaskView, a: Option<IsSubShapeResult>) -> bool {
    a matches Some(r) ==> exists|st: GrandShapeContentSummaryAtWork, mid: GrandShapeContentSummaryAtWork, end: GrandShapeContentSummaryAtWork| {
        &&& st.descriptions() == ds
        &&& st.description_contexts() == cs
        &&& #[trigger] description_asked(st, mid, end, t.2, t.3, r)
    }
}

/// Whether `errs` are the errors the guard tasks `ts` give, in order, where
/// their subshape questions came out `answers` (none where a description is
/// not stored): one error per question that did not come out yes (see
/// `guard_error_is`), none for the others.
pub open spec fn guard_errors(
    ts: Seq<GuardTaskView>,
    answers: Seq<Option<IsSubShapeResult>>,
    errs: Seq<ShapeDefinitionResolutionError>,
    ds: Seq<ShapeDescription>,
) -> bool
    decreases ts.len(),
{
    if ts.len() == 0 {
        errs.len() == 0
    } else {
        let k = ts.len() - 1;
        match answers[k] {
            Some(r) => if r != IsSubShapeResult::True {
                &&& errs.len() > 0
                &&& guard_error_is(errs.last(), ts[k], r, ds)
                &&& guard_errors(ts.drop_last(), answers.drop_last(), errs.drop_last(), ds)
            } else {
                guard_errors(ts.drop_last(), answers.drop_last(), errs, ds)
            },
            None => guard_errors(ts.drop_last(), answers.drop_last(), errs, ds),
        }
    }
}

/// Changing only the errors keeps a summary ready.
proof fn lemma_same_but_errors_ready(a: GrandShapeContentSummaryAtWork, b: GrandShapeContentSummaryAtWork)
    requires
        b.same_but_errors(a),
        a.ready(),
    ensures
        b.ready(),
{
}

impl<'a> GrandShapeContentSummaryAtWork<'a> {
    /// Whether the errors of this summary begin with those of `old`.
    pub open spec fn errors_extend(&self, old: Self) -> bool {
        &&& old.gsc_summary.errors@.len() <= self.gsc_summary.errors@.len()
        &&& self.gsc_summary.errors@.take(old.gsc_summary.errors@.len() as int) == old.gsc_summary.errors@
    }

    /// Checks the generic arguments of every recorded shape's contents:
    /// each use of a generic shape must give as many arguments as the shape
    /// takes (see `does_shape_generic_size_fit`), and each argument given
    /// to a guarded parameter must be a subshape of its guard.  The errors
    /// about wrong numbers of arguments come first, head after head in the
    /// order of the recorded heads (see `heads_fit`); then each guard task
    /// adds at most one error: a guard that fails is recorded as such at the
    /// argument's position, an undecided or too costly question as an
    /// undecided subshape question at the guard's position, with the texts
    /// of both shapes.  Questions on descriptions that are not stored or
    /// have no computable shape are skipped.
    pub fn check_shape_content_generic(&mut self)
        requires
            old(self).ready(),
        ensures
            final(self).ready(),
            final(self).errors_extend(*old(self)),
            ({
                let f = heads_fit(
                    old(self).gsc_summary.kv_tables,
                    old(self).gsc_summary.shape_content_heads,
                    old(self).gsc_summary.shape_content_heads.keys(),
                );
                let n = old(self).gsc_summary.errors@.len();
                &&& n + f.0.len() <= final(self).gsc_summary.errors@.len()
                &&& final(self).gsc_summary.errors@.len() <= n + f.0.len() + f.1.len()
                &&& forall|j: int| 0 <= j < f.0.len() ==> is_size_error(#[trigger] final(self).gsc_summary.errors@[n + j], f.0[j])
                &&& exists|answers: Seq<Option<IsSubShapeResult>>| {
                    &&& answers.len() == f.1.len()
                    &&& forall|k: int| 0 <= k < f.1.len() ==> guard_answered(
                        old(self).descriptions(),
                        old(self).description_contexts(),
                        f.1[k],
                        #[trigger] answers[k],
                    )
                    &&& forall|k: int| 0 <= k < f.1.len() ==> guard_asked(
                        old(self).descriptions(),
                        old(self).description_contexts(),
                        f.1[k],
                        #[trigger] answers[k],
                    )
                    &&& #[trigger] guard_errors(
                        f.1,
                        answers,
                        final(self).gsc_summary.errors@.skip((n + f.0.len()) as int),
                        old(self).descriptions(),
                    )
                }
            }),
    {
        let ghost s0 = *self;
        let ghost kv = self.gsc_summary.kv_tables;
        let ghost hm = self.gsc_summary.shape_content_heads;
        let ghost keys = hm.keys();
        let ghost n0 = self.gsc_summary.errors@.len();
        proof {
            assert(self.gsc_summary.errors@.take(self.gsc_summary.errors@.len() as int) =~= self.gsc_summary.errors@);
            hm.lemma_lengths();
        }
        let mut heads: Vec<ShapeContentHeadKey> = Vec::new();
        let mut i: usize = 0;
        while i < self.gsc_summary.shape_content_heads.len()
            invariant
                *self == s0,
                hm == s0.gsc_summary.shape_content_heads,
                keys == hm.keys(),
                keys.len() == hm.size(),
                i <= hm.size(),
                heads@.len() == i,
                forall|j: int| 0 <= j < i ==> (#[trigger] heads@[j])@ == keys[j],
            decreases self.gsc_summary.shape_content_heads.size() - i,
        {
            heads.push(self.gsc_summary.shape_content_heads.key_at(i).key_dup());
            i = i + 1;
        }
        let mut tasks: Vec<GuardTask> = Vec::new();
        let mut i: usize = 0;
        proof {
            assert(keys.take(0) =~= Seq::<ShapeHeadView>::empty());
            assert(self.gsc_summary.errors@.take(n0 as int) =~= s0.gsc_summary.errors@);
            assert(tasks@.map_values(|t: GuardTask| task_view(t)) =~= Seq::<GuardTaskView>::empty());
        }
        while i < heads.len()
            invariant
                self.ready(),
                s0 == *old(self),
                kv == s0.gsc_summary.kv_tables,
                hm == s0.gsc_summary.shape_content_heads,
                keys == hm.keys(),
                n0 == s0.gsc_summary.errors@.len(),
                i <= heads@.len(),
                heads@.len() == keys.len(),
                forall|j: int| 0 <= j < heads@.len() ==> (#[trigger] heads@[j])@ == keys[j],
                self.same_but_errors(s0),
                self.gsc_summary.errors@.len() == n0 + heads_fit(kv, hm, keys.take(i as int)).0.len(),
                self.gsc_summary.errors@.take(n0 as int) == s0.gsc_summary.errors@,
                forall|j: int| 0 <= j < heads_fit(kv, hm, keys.take(i as int)).0.len() ==> is_size_error(
                    #[trigger] self.gsc_summary.errors@[n0 + j],
                    heads_fit(kv, hm, keys.take(i as int)).0[j],
                ),
                tasks@.map_values(|t: GuardTask| task_view(t)) == heads_fit(kv, hm, keys.take(i as int)).1,
            decreases heads@.len() - i,
        {
            let ghost st = *self;
            let ghost before = heads_fit(kv, hm, keys.take(i as int));
            let ghost tv0 = tasks@;
            let mut t = self.does_shape_generic_size_fit(heads[i].key_dup());
            let ghost tv1 = t@;
            proof {
                lemma_same_but_errors_ready(st, *self);
                let after = heads_fit(kv, hm, keys.take(i + 1));
                assert(keys.take(i + 1).drop_last() =~= keys.take(i as int));
                assert(keys.take(i + 1).last() == keys[i as int]);
                let h = head_fit(kv, hm, keys[i as int]);
                assert(after == (before.0 + h.0, before.1 + h.1));
                let n1 = st.gsc_summary.errors@.len();
                if hm.has(keys[i as int]) && hm.at(keys[i as int]).0 < kv.shape_content_table@.len() {
                    assert(self.size_errors_added(st, h.0));
                } else {
                    assert(h.0 =~= Seq::<SizeErrorView>::empty());
                    assert(h.1 =~= Seq::<GuardTaskView>::empty());
                    assert(self.gsc_summary.errors@.take(n1 as int) =~= st.gsc_summary.errors@);
                }
                assert(self.gsc_summary.errors@.take(n0 as int) =~= s0.gsc_summary.errors@) by {
                    assert forall|x: int| 0 <= x < n0 implies self.gsc_summary.errors@[x] == s0.gsc_summary.errors@[x] by {
                        assert(self.gsc_summary.errors@.take(n1 as int)[x] == st.gsc_summary.errors@[x]);
                        assert(st.gsc_summary.errors@.take(n0 as int)[x] == s0.gsc_summary.errors@[x]);
                    }
                }
                assert forall|j: int| 0 <= j < after.0.len() implies is_size_error(
                    #[trigger] self.gsc_summary.errors@[n0 + j],
                    after.0[j],
                ) by {
                    if j < before.0.len() {
                        assert(self.gsc_summary.errors@.take(n1 as int)[n0 + j] == st.gsc_summary.errors@[n0 + j]);
                    } else {
                        let k = j - before.0.len();
                        assert(after.0[j] == h.0[k]);
                        assert(is_size_error(self.gsc_summary.errors@[n1 + k], h.0[k]));
                    }
                }
            }
            tasks.append(&mut t);
            proof {
                assert(tasks@.map_values(|t: GuardTask| task_view(t)) =~= tv0.map_values(|t: GuardTask| task_view(t))
                    + tv1.map_values(|t: GuardTask| task_view(t)));
            }
            i = i + 1;
        }
        let ghost s1 = *self;
        let ghost n1 = self.gsc_summary.errors@.len();
        proof {
            assert(keys.take(i as int) =~= keys);
            assert(self.gsc_summary.errors@.take(n1 as int) =~= self.gsc_summary.errors@);
            assert(tasks@.len() == heads_fit(kv, hm, keys).1.len());
        }
        let ghost tv = tasks@.map_values(|t: GuardTask| task_view(t));
        let ghost ds = s0.descriptions();
        let ghost mut answers: Seq<Option<IsSubShapeResult>> = Seq::empty();
        proof {
            assert(tv.take(0) =~= Seq::<GuardTaskView>::empty());
            assert(self.gsc_summary.errors@.skip(n1 as int) =~= Seq::<ShapeDefinitionResolutionError>::empty());
        }
        let mut i: usize = 0;
        while i < tasks.len()
            invariant
                self.ready(),
                s0 == *old(self),
                i <= tasks@.len(),
                tv == tasks@.map_values(|t: GuardTask| task_view(t)),
                ds == s0.descriptions(),
                self.descriptions() == ds,
                n1 == s1.gsc_summary.errors@.len(),
                n1 <= self.gsc_summary.errors@.len() <= n1 + i,
                self.gsc_summary.errors@.take(n1 as int) == s1.gsc_summary.errors@,
                answers.len() == i,
                self.description_contexts() == s0.description_contexts(),
                forall|k: int| 0 <= k < i ==> guard_answered(ds, s0.description_contexts(), tv[k], #[trigger] answers[k]),
                forall|k: int| 0 <= k < i ==> guard_asked(ds, s0.description_contexts(), tv[k], #[trigger] answers[k]),
                guard_errors(tv.take(i as int), answers, self.gsc_summary.errors@.skip(n1 as int), ds),
            decreases tasks@.len() - i,
        {
            let ghost eb = self.gsc_summary.errors@;
            let ghost a0 = answers;
            let ghost t = tv[i as int];
            proof {
                assert(tv.take(i + 1).drop_last() =~= tv.take(i as int));
                assert(tv.take(i + 1).last() == t);
                assert(t == task_view(tasks@[i as int]));
            }
            let arg = tasks[i].2;
            let guard = tasks[i].3;
            let n_descs = self.gsc_summary.kv_tables.shape_description_table.len();
            if arg.0 < n_descs && guard.0 < n_descs {
                let ghost st = *self;
                let answer = self.shape_description_is_subshape(&arg, &guard);
                let ghost st2 = *self;
                proof {
                    assert(st2.gsc_summary.errors == st.gsc_summary.errors);
                }
                proof {
                    assert(self.descriptions() == ds);
                }
                let error = match answer {
                    Some(IsSubShapeResult::False) => {
                        let pos = self.gsc_summary.kv_tables.shape_description_table[arg.0].pos.duplicate();
                        let e = ShapeContentCheckError::generic_guard_fails(pos, tasks[i].0.to_text(), tasks[i].1.to_text());
                        Some(ShapeDefinitionResolutionError::from_shape_content_check(e))
                    },
                    Some(IsSubShapeResult::Stuck) => {
                        let pos = self.gsc_summary.kv_tables.shape_description_table[guard.0].pos.duplicate();
                        let e = ShapeGraphError::is_sub_shape_stuck(pos, self.display_shape_definition(&arg), self.display_shape_definition(&guard));
                        Some(ShapeDefinitionResolutionError::from_shape_graph(e))
                    },
                    Some(IsSubShapeResult::OverCost) => {
                        let pos = self.gsc_summary.kv_tables.shape_description_table[guard.0].pos.duplicate();
                        let e = ShapeGraphError::is_sub_shape_over_cost(pos, self.display_shape_definition(&arg), self.display_shape_definition(&guard));
                        Some(ShapeDefinitionResolutionError::from_shape_graph(e))
                    },
                    _ => None,
                };
                let ghost ev = error;
                match error {
                    Some(e) => {
                        self.add_error(e);
                        proof {
                            lemma_same_but_errors_ready(st2, *self);
                            assert(self.gsc_summary.errors@.take(n1 as int) =~= s1.gsc_summary.errors@) by {
                                assert forall|x: int| 0 <= x < n1 implies self.gsc_summary.errors@[x] == s1.gsc_summary.errors@[x] by {
                                    assert(st2.gsc_summary.errors@.take(n1 as int)[x] == s1.gsc_summary.errors@[x]);
                                }
                            }
                            assert(self.gsc_summary.errors@.skip(n1 as int) =~= eb.skip(n1 as int).push(ev.unwrap()));
                            assert(self.gsc_summary.errors@.skip(n1 as int).drop_last() =~= eb.skip(n1 as int));
                            assert(guard_error_is(ev.unwrap(), t, answer.unwrap(), ds));
                        }
                    },
                    None => {},
                }
                proof {
                    if answer is Some {
                        let mid = choose|mid: GrandShapeContentSummaryAtWork| #[trigger] description_asked(st, mid, st2, arg.0, guard.0, answer.unwrap());
                        assert(description_asked(st, mid, st2, t.2, t.3, answer.unwrap()));
                    }
                    answers = answers.push(answer);
                    assert(answers.drop_last() =~= answers.take(i as int));
                }
            } else {
                proof {
                    answers = answers.push(None);
                }
            }
            proof {
                assert(answers.drop_last() =~= a0);
                let ts = tv.take(i + 1);
                assert(ts.drop_last() =~= tv.take(i as int));
                assert(ts[i as int] == t);
                let errs = self.gsc_summary.errors@.skip(n1 as int);
                if errs.len() == eb.skip(n1 as int).len() {
                    assert(self.gsc_summary.errors@ == eb);
                    assert(errs =~= eb.skip(n1 as int));
                } else {
                    assert(errs.drop_last() =~= eb.skip(n1 as int));
                }
                assert(guard_errors(ts, answers, errs, ds));
            }
            i = i + 1;
        }
        proof {
            let f = heads_fit(kv, hm, keys);
            assert(self.gsc_summary.errors@.take(n0 as int) =~= s0.gsc_summary.errors@) by {
                assert forall|x: int| 0 <= x < n0 implies self.gsc_summary.errors@[x] == s0.gsc_summary.errors@[x] by {
                    assert(self.gsc_summary.errors@.take(n1 as int)[x] == s1.gsc_summary.errors@[x]);
                    assert(s1.gsc_summary.errors@.take(n0 as int)[x] == s0.gsc_summary.errors@[x]);
                }
            }
            assert forall|j: int| 0 <= j < f.0.len() implies is_size_error(#[trigger] self.gsc_summary.errors@[n0 + j], f.0[j]) by {
                assert(self.gsc_summary.errors@.take(n1 as int)[n0 + j] == s1.gsc_summary.errors@[n0 + j]);
            }
            assert(tv.take(i as int) =~= tv);
            assert(tv == f.1);
            assert(n1 == n0 + f.0.len());
        }
    }
}

} // verus!
