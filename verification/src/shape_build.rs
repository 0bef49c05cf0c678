use vstd::prelude::*;
use crate::computable_shape::{ComputableShape, ComputableShapeGut, UnresolvedPShape, UnresolvedPShapeGut};
use crate::elementary_shape::{ElementaryPShape, ElementaryShape};
use crate::keyed::KeyedMap;
use crate::parsed::{ParsedPosition, PositionView};
use crate::route::Route;
use crate::shape_data::{ShapeDescription, ShapeDescriptionContext, ShapeDescriptionGut, UnresolvedShape};
use crate::shape_keys::{ComputableShapeKey, ShapeDescriptionKey};
use crate::shape_summary::GrandShapeContentSummaryAtWork;

verus! {

/// Whether description `d` can be turned into a computable shape: it is
/// stored, every description it is made of is stored before it and can be
/// turned too, and a generic variable is read in a context that has generic
/// parameters.
pub open spec fn description_ok(ds: Seq<ShapeDescription>, ctxs: Seq<ShapeDescriptionContext>, d: int) -> bool
    decreases d,
{
    if d < 0 || d >= ds.len() {
        false
    } else {
        match ds[d].gut {
            ShapeDescriptionGut::Elementary(_) => true,
            ShapeDescriptionGut::Unresolved(UnresolvedShape::Specified(_, ps)) => forall|i: int| #![trigger ps[i]]
                0 <= i < ps.len() ==> ps[i].0 < d && description_ok(ds, ctxs, ps[i].0 as int),
            ShapeDescriptionGut::Unresolved(UnresolvedShape::GenericVariable(_)) => ds[d].context_key.0 < ctxs.len()
                && ctxs[ds[d].context_key.0 as int].generic_param_key is Some,
            ShapeDescriptionGut::ParenSingle(k) => k.0 < d && description_ok(ds, ctxs, k.0 as int),
            ShapeDescriptionGut::Tuple(v) => forall|i: int| #![trigger v[i]]
                0 <= i < v.len() ==> v[i].0 < d && description_ok(ds, ctxs, v[i].0 as int),
            ShapeDescriptionGut::Array(k) => k.0 < d && description_ok(ds, ctxs, k.0 as int),
            ShapeDescriptionGut::Mapping { key, value } => key.0 < d && description_ok(ds, ctxs, key.0 as int) && value.0 < d
                && description_ok(ds, ctxs, value.0 as int),
            ShapeDescriptionGut::Struct(m) => forall|i: int| #![trigger m.values()[i]]
                0 <= i < m.values().len() ==> m.values()[i].0 < d && description_ok(ds, ctxs, m.values()[i].0 as int),
            ShapeDescriptionGut::Function { args, ret } => (forall|i: int| #![trigger args[i]]
                0 <= i < args.len() ==> args[i].0 < d && description_ok(ds, ctxs, args[i].0 as int)) && ret.0 < d
                && description_ok(ds, ctxs, ret.0 as int),
            ShapeDescriptionGut::Union(a, b) => a.0 < d && description_ok(ds, ctxs, a.0 as int) && b.0 < d
                && description_ok(ds, ctxs, b.0 as int),
            ShapeDescriptionGut::Intersection(a, b) => a.0 < d && description_ok(ds, ctxs, a.0 as int) && b.0 < d
                && description_ok(ds, ctxs, b.0 as int),
        }
    }
}

/// Whether a position is present and has the view `p`.
pub open spec fn at_pos(o: Option<ParsedPosition>, p: PositionView) -> bool {
    match o {
        Some(q) => q@ == p,
        None => false,
    }
}

/// Whether computable shape `k` of table `t` is the translation of
/// description `d`: same form, the description's position on the shape
/// (and on an elementary or unresolved part of it), each part the
/// translation of the matching part, stored before `k`.  A generic
/// variable carries the generic parameters of its context.
pub open spec fn built_from(
    t: Seq<ComputableShape>,
    k: int,
    ds: Seq<ShapeDescription>,
    ctxs: Seq<ShapeDescriptionContext>,
    d: int,
) -> bool
    decreases d,
{
    if d < 0 || d >= ds.len() || k < 0 || k >= t.len() {
        false
    } else {
        let desc = ds[d];
        let s = t[k];
        &&& at_pos(s.position, desc.pos@)
        &&& match desc.gut {
            ShapeDescriptionGut::Elementary(e) => s.gut matches ComputableShapeGut::Elementary(ep) && ep.gut == e
                && at_pos(ep.position, desc.pos@),
            ShapeDescriptionGut::Unresolved(UnresolvedShape::Specified(r, ps)) => s.gut is Unresolved
                && at_pos(s.gut->Unresolved_0.position, desc.pos@) && s.gut->Unresolved_0.gut is Specified
                && s.gut->Unresolved_0.gut->Specified_0@ == r@ && s.gut->Unresolved_0.gut->Specified_1.len() == ps.len()
                && forall|i: int| #![trigger ps[i]] #![trigger s.gut->Unresolved_0.gut->Specified_1[i]] 0 <= i < ps.len() ==> s.gut->Unresolved_0.gut->Specified_1[i].0 < k
                    && ps[i].0 < d && built_from(t, s.gut->Unresolved_0.gut->Specified_1[i].0 as int, ds, ctxs, ps[i].0 as int),
            ShapeDescriptionGut::Unresolved(UnresolvedShape::GenericVariable(name)) => match s.gut {
                ComputableShapeGut::Unresolved(u) => at_pos(u.position, desc.pos@) && match u.gut {
                    UnresolvedPShapeGut::GenericVar(n2, gk) => n2@ == name@ && desc.context_key.0 < ctxs.len()
                        && ctxs[desc.context_key.0 as int].generic_param_key == Some(gk),
                    _ => false,
                },
                _ => false,
            },
            ShapeDescriptionGut::ParenSingle(c) => s.gut matches ComputableShapeGut::ParenSingle(c2) && c2.0 < k && c.0 < d
                && built_from(t, c2.0 as int, ds, ctxs, c.0 as int),
            ShapeDescriptionGut::Tuple(v) => s.gut matches ComputableShapeGut::Tuple(v2) && v2.len() == v.len() && forall|i: int| #![trigger v[i]] #![trigger v2[i]]
                0 <= i < v.len() ==> v2[i].0 < k && v[i].0 < d && built_from(t, v2[i].0 as int, ds, ctxs, v[i].0 as int),
            ShapeDescriptionGut::Array(c) => s.gut matches ComputableShapeGut::Array(c2) && c2.0 < k && c.0 < d
                && built_from(t, c2.0 as int, ds, ctxs, c.0 as int),
            ShapeDescriptionGut::Mapping { key, value } => s.gut matches ComputableShapeGut::Mapping(k2, v2) && k2.0 < k && key.0 < d
                && built_from(t, k2.0 as int, ds, ctxs, key.0 as int) && v2.0 < k && value.0 < d
                && built_from(t, v2.0 as int, ds, ctxs, value.0 as int),
            ShapeDescriptionGut::Struct(m) => s.gut matches ComputableShapeGut::Struct(m2) && m2.keys() == m.keys()
                && m2.values().len() == m.values().len() && forall|i: int| #![trigger m.values()[i]] #![trigger m2.values()[i]]
                0 <= i < m.values().len() ==> m2.values()[i].0 < k && m.values()[i].0 < d
                    && built_from(t, m2.values()[i].0 as int, ds, ctxs, m.values()[i].0 as int),
            ShapeDescriptionGut::Function { args, ret } => s.gut matches ComputableShapeGut::Function(a2, r2) && a2.len() == args.len()
                && (forall|i: int| #![trigger args[i]] #![trigger a2[i]]
                0 <= i < args.len() ==> a2[i].0 < k && args[i].0 < d && built_from(t, a2[i].0 as int, ds, ctxs, args[i].0 as int))
                && r2.0 < k && ret.0 < d && built_from(t, r2.0 as int, ds, ctxs, ret.0 as int),
            ShapeDescriptionGut::Union(a, b) => s.gut matches ComputableShapeGut::Union(a2, b2) && a2.0 < k && a.0 < d
                && built_from(t, a2.0 as int, ds, ctxs, a.0 as int) && b2.0 < k && b.0 < d
                && built_from(t, b2.0 as int, ds, ctxs, b.0 as int),
            ShapeDescriptionGut::Intersection(a, b) => s.gut matches ComputableShapeGut::Intersection(a2, b2) && a2.0 < k && a.0 < d
                && built_from(t, a2.0 as int, ds, ctxs, a.0 as int) && b2.0 < k && b.0 < d
                && built_from(t, b2.0 as int, ds, ctxs, b.0 as int),
        }
    }
}

/// A translation stays one when shapes are added after the table's end.
pub proof fn lemma_built_from_extend(
    t: Seq<ComputableShape>,
    t2: Seq<ComputableShape>,
    k: int,
    ds: Seq<ShapeDescription>,
    ctxs: Seq<ShapeDescriptionContext>,
    d: int,
)
    requires
        built_from(t, k, ds, ctxs, d),
        t.len() <= t2.len(),
        t2.take(t.len() as int) == t,
    ensures
        built_from(t2, k, ds, ctxs, d),
    decreases d,
{
    assert(t2[k] == t[k]) by {
        assert(t2.take(t.len() as int)[k] == t2[k]);
    }
    match ds[d].gut {
        ShapeDescriptionGut::Unresolved(UnresolvedShape::Specified(_, _)) => {
            let ps = ds[d].gut->Unresolved_0->Specified_1;
            let args = t[k].gut->Unresolved_0.gut->Specified_1;
            assert forall|i: int| #![trigger ps[i]] 0 <= i < ps.len() implies t2[k].gut->Unresolved_0.gut->Specified_1[i].0 < k
                && ps[i].0 < d && built_from(t2, t2[k].gut->Unresolved_0.gut->Specified_1[i].0 as int, ds, ctxs, ps[i].0 as int) by {
                let j = i;
                assert(ps[j].0 < d);
                assert(args[j].0 < k);
                lemma_built_from_extend(t, t2, args[i].0 as int, ds, ctxs, ps[i].0 as int);
            }
        },
        ShapeDescriptionGut::ParenSingle(c) => {
            lemma_built_from_extend(t, t2, t[k].gut->ParenSingle_0.0 as int, ds, ctxs, c.0 as int);
        },
        ShapeDescriptionGut::Tuple(v) => {
            let v2 = t[k].gut->Tuple_0;
            assert forall|i: int| #![trigger v[i]] 0 <= i < v.len() implies v2[i].0 < k && v[i].0 < d
                && built_from(t2, v2[i].0 as int, ds, ctxs, v[i].0 as int) by {
                lemma_built_from_extend(t, t2, v2[i].0 as int, ds, ctxs, v[i].0 as int);
            }
        },
        ShapeDescriptionGut::Array(c) => {
            lemma_built_from_extend(t, t2, t[k].gut->Array_0.0 as int, ds, ctxs, c.0 as int);
        },
        ShapeDescriptionGut::Mapping { key, value } => {
            lemma_built_from_extend(t, t2, t[k].gut->Mapping_0.0 as int, ds, ctxs, key.0 as int);
            lemma_built_from_extend(t, t2, t[k].gut->Mapping_1.0 as int, ds, ctxs, value.0 as int);
        },
        ShapeDescriptionGut::Struct(m) => {
            let m2 = t[k].gut->Struct_0;
            assert forall|i: int| #![trigger m.values()[i]] 0 <= i < m.values().len() implies m2.values()[i].0 < k && m.values()[i].0 < d
                && built_from(t2, m2.values()[i].0 as int, ds, ctxs, m.values()[i].0 as int) by {
                lemma_built_from_extend(t, t2, m2.values()[i].0 as int, ds, ctxs, m.values()[i].0 as int);
            }
        },
        ShapeDescriptionGut::Function { args, ret } => {
            let a2 = t[k].gut->Function_0;
            assert forall|i: int| #![trigger args[i]] 0 <= i < args.len() implies a2[i].0 < k && args[i].0 < d
                && built_from(t2, a2[i].0 as int, ds, ctxs, args[i].0 as int) by {
                lemma_built_from_extend(t, t2, a2[i].0 as int, ds, ctxs, args[i].0 as int);
            }
            lemma_built_from_extend(t, t2, t[k].gut->Function_1.0 as int, ds, ctxs, ret.0 as int);
        },
        ShapeDescriptionGut::Union(a, b) => {
            lemma_built_from_extend(t, t2, t[k].gut->Union_0.0 as int, ds, ctxs, a.0 as int);
            lemma_built_from_extend(t, t2, t[k].gut->Union_1.0 as int, ds, ctxs, b.0 as int);
        },
        ShapeDescriptionGut::Intersection(a, b) => {
            lemma_built_from_extend(t, t2, t[k].gut->Intersection_0.0 as int, ds, ctxs, a.0 as int);
            lemma_built_from_extend(t, t2, t[k].gut->Intersection_1.0 as int, ds, ctxs, b.0 as int);
        },
        _ => {},
    }
}


impl<'a> GrandShapeContentSummaryAtWork<'a> {
    /// The computable shapes stored so far, by key.
    pub open spec fn shapes(&self) -> Seq<ComputableShape> {
        self.gsc_summary.kv_tables.computable_shape_table@
    }

    /// The shape descriptions stored so far, by key.
    pub open spec fn descriptions(&self) -> Seq<ShapeDescription> {
        self.gsc_summary.kv_tables.shape_description_table@
    }

    /// The description contexts stored so far, by key.
    pub open spec fn description_contexts(&self) -> Seq<ShapeDescriptionContext> {
        self.gsc_summary.kv_tables.shape_description_context_table@
    }

    /// Whether this summary is `old` with computable shapes added at the end
    /// of their table; the table of computable shapes by description and
    /// the subshape questions aside, nothing else differs.
    pub open spec fn grown_from(&self, old: Self) -> bool {
        let t = self.gsc_summary.kv_tables;
        let o = old.gsc_summary.kv_tables;
        &&& self.grand_module_skeleton_table == old.grand_module_skeleton_table
        &&& self.grand_module_merge_table == old.grand_module_merge_table
        &&& t.shape_content_table == o.shape_content_table
        &&& t.operation_content_table == o.operation_content_table
        &&& t.bind_content_table == o.bind_content_table
        &&& t.operator_content_table == o.operator_content_table
        &&& t.coerce_content_table == o.coerce_content_table
        &&& t.generic_param_description_table == o.generic_param_description_table
        &&& t.shape_description_table == o.shape_description_table
        &&& t.shape_description_context_table == o.shape_description_context_table
        &&& t.function_description_table == o.function_description_table
        &&& t.function_description_context_table == o.function_description_context_table
        &&& t.closure_description_table == o.closure_description_table
        &&& t.in_closure_description_context_table == o.in_closure_description_context_table
        &&& self.gsc_summary.shape_content_heads == old.gsc_summary.shape_content_heads
        &&& self.gsc_summary.operation_content_heads == old.gsc_summary.operation_content_heads
        &&& self.gsc_summary.bind_content_heads == old.gsc_summary.bind_content_heads
        &&& self.gsc_summary.operator_content_heads == old.gsc_summary.operator_content_heads
        &&& self.gsc_summary.coerce_content_heads == old.gsc_summary.coerce_content_heads
        &&& self.gsc_summary.ecs_key_table == old.gsc_summary.ecs_key_table
        &&& self.gsc_summary.bind_name_table == old.gsc_summary.bind_name_table
        &&& self.gsc_summary.graph == old.gsc_summary.graph
        &&& self.gsc_summary.errors == old.gsc_summary.errors
        &&& old.shapes().len() <= self.shapes().len()
        &&& self.shapes().take(old.shapes().len() as int) == old.shapes()
    }
}

impl<'a> GrandShapeContentSummaryAtWork<'a> {
    /// Every computable shape recorded for a description or an elementary
    /// shape is stored.
    pub open spec fn keys_valid(&self) -> bool {
        &&& forall|d: usize| #[trigger] self.gsc_summary.computable_shape_table.has(d)
            ==> self.gsc_summary.computable_shape_table.at(d).0 < self.shapes().len()
        &&& forall|e: ElementaryShape| #[trigger] self.gsc_summary.ecs_key_table.has(e)
            ==> self.gsc_summary.ecs_key_table.at(e).0 < self.shapes().len()
    }
}

/// Recorded keys stay stored while the summary grows.
pub proof fn lemma_keys_valid_grown(a: GrandShapeContentSummaryAtWork, b: GrandShapeContentSummaryAtWork)
    requires
        a.keys_valid(),
        b.grown_from(a),
        b.gsc_summary.computable_shape_table == a.gsc_summary.computable_shape_table,
    ensures
        b.keys_valid(),
{
}

/// A summary has grown from itself.
pub proof fn lemma_grown_refl(s: GrandShapeContentSummaryAtWork)
    ensures
        s.grown_from(s),
{
    assert(s.shapes().take(s.shapes().len() as int) =~= s.shapes());
}

/// Growing twice is growing.
pub proof fn lemma_grown_trans(a: GrandShapeContentSummaryAtWork, b: GrandShapeContentSummaryAtWork, c: GrandShapeContentSummaryAtWork)
    requires
        b.grown_from(a),
        c.grown_from(b),
    ensures
        c.grown_from(a),
{
    assert(c.shapes().take(a.shapes().len() as int) =~= a.shapes()) by {
        assert forall|i: int| 0 <= i < a.shapes().len() implies c.shapes()[i] == a.shapes()[i] by {
            assert(c.shapes().take(b.shapes().len() as int)[i] == b.shapes()[i]);
            assert(b.shapes().take(a.shapes().len() as int)[i] == a.shapes()[i]);
        }
    }
}

/// The parts of a description, copied out of the summary.
pub(crate) enum Parts {
    Elementary(ElementaryShape),
    Specified(Route, Vec<ShapeDescriptionKey>),
    Generic(String),
    Paren(ShapeDescriptionKey),
    Tuple(Vec<ShapeDescriptionKey>),
    Array(ShapeDescriptionKey),
    Mapping(ShapeDescriptionKey, ShapeDescriptionKey),
    Struct(Vec<String>, Vec<ShapeDescriptionKey>),
    Function(Vec<ShapeDescriptionKey>, ShapeDescriptionKey),
    Union(ShapeDescriptionKey, ShapeDescriptionKey),
    Intersection(ShapeDescriptionKey, ShapeDescriptionKey),
}

/// Whether `p` holds the parts of `g`.
pub(crate) open spec fn parts_of(p: Parts, g: ShapeDescriptionGut) -> bool {
    match (p, g) {
        (Parts::Elementary(a), ShapeDescriptionGut::Elementary(b)) => a == b,
        (Parts::Specified(r, v), ShapeDescriptionGut::Unresolved(UnresolvedShape::Specified(r2, v2))) => r@ == r2@ && v@ == v2@,
        (Parts::Generic(n), ShapeDescriptionGut::Unresolved(UnresolvedShape::GenericVariable(n2))) => n@ == n2@,
        (Parts::Paren(a), ShapeDescriptionGut::ParenSingle(b)) => a == b,
        (Parts::Tuple(v), ShapeDescriptionGut::Tuple(v2)) => v@ == v2@,
        (Parts::Array(a), ShapeDescriptionGut::Array(b)) => a == b,
        (Parts::Mapping(a, b), ShapeDescriptionGut::Mapping { key, value }) => a == key && b == value,
        (Parts::Struct(ks, vs), ShapeDescriptionGut::Struct(m)) => ks@.map_values(|s: String| s@) == m.keys()
            && m.keys().no_duplicates() && vs@ == m.values(),
        (Parts::Function(v, r), ShapeDescriptionGut::Function { args, ret }) => v@ == args@ && r == ret,
        (Parts::Union(a, b), ShapeDescriptionGut::Union(a2, b2)) => a == a2 && b == b2,
        (Parts::Intersection(a, b), ShapeDescriptionGut::Intersection(a2, b2)) => a == a2 && b == b2,
        _ => false,
    }
}

/// A copy of a list of keys.
fn copy_description_keys(v: &Vec<ShapeDescriptionKey>) -> (res: Vec<ShapeDescriptionKey>)
    ensures
        res@ == v@,
{
    let mut res: Vec<ShapeDescriptionKey> = Vec::new();
    let mut i: usize = 0;
    while i < v.len()
        invariant
            i <= v@.len(),
            res@ == v@.take(i as int),
        decreases v.len() - i,
    {
        res.push(v[i]);
        proof {
            assert(v@.take(i + 1) =~= v@.take(i as int).push(v@[i as int]));
        }
        i = i + 1;
    }
    proof {
        assert(v@.take(v@.len() as int) =~= v@);
    }
    res
}

/// The parts of description `i`.
pub(crate) fn description_parts(descs: &Vec<ShapeDescription>, i: usize) -> (res: Parts)
    requires
        i < descs@.len(),
    ensures
        parts_of(res, descs@[i as int].gut),
{
    match &descs[i].gut {
        ShapeDescriptionGut::Elementary(e) => Parts::Elementary(*e),
        ShapeDescriptionGut::Unresolved(UnresolvedShape::Specified(r, v)) => Parts::Specified(r.duplicate(), copy_description_keys(v)),
        ShapeDescriptionGut::Unresolved(UnresolvedShape::GenericVariable(n)) => Parts::Generic(n.clone()),
        ShapeDescriptionGut::ParenSingle(a) => Parts::Paren(*a),
        ShapeDescriptionGut::Tuple(v) => Parts::Tuple(copy_description_keys(v)),
        ShapeDescriptionGut::Array(a) => Parts::Array(*a),
        ShapeDescriptionGut::Mapping { key, value } => Parts::Mapping(*key, *value),
        ShapeDescriptionGut::Struct(m) => {
            proof {
                use_type_invariant(m);
                m.lemma_lengths();
            }
            let mut ks: Vec<String> = Vec::new();
            let mut vs: Vec<ShapeDescriptionKey> = Vec::new();
            let mut j: usize = 0;
            while j < m.len()
                invariant
                    j <= m.size(),
                    m.keys().len() == m.size(),
                    m.values().len() == m.size(),
                    ks@.map_values(|s: String| s@) == m.keys().take(j as int),
                    vs@ == m.values().take(j as int),
                decreases m.size() - j,
            {
                ks.push(m.key_at(j).clone());
                vs.push(*m.value_at(j));
                proof {
                    assert(m.keys().take(j + 1) =~= m.keys().take(j as int).push(m.keys()[j as int]));
                    assert(ks@.map_values(|s: String| s@) =~= m.keys().take(j + 1));
                    assert(m.values().take(j + 1) =~= m.values().take(j as int).push(m.values()[j as int]));
                }
                j = j + 1;
            }
            proof {
                assert(m.keys().take(m.size() as int) =~= m.keys());
                assert(m.values().take(m.size() as int) =~= m.values());
            }
            Parts::Struct(ks, vs)
        },
        ShapeDescriptionGut::Function { args, ret } => Parts::Function(copy_description_keys(args), *ret),
        ShapeDescriptionGut::Union(a, b) => Parts::Union(*a, *b),
        ShapeDescriptionGut::Intersection(a, b) => Parts::Intersection(*a, *b),
    }
}


/// Whether `ks` are translations of descriptions `ps`, in order, each
/// stored before key `bound`.
pub open spec fn all_built_from(
    t: Seq<ComputableShape>,
    ks: Seq<ComputableShapeKey>,
    ds: Seq<ShapeDescription>,
    ctxs: Seq<ShapeDescriptionContext>,
    ps: Seq<ShapeDescriptionKey>,
) -> bool {
    &&& ks.len() == ps.len()
    &&& forall|i: int| #![trigger ks[i]] #![trigger ps[i]] 0 <= i < ps.len() ==> ks[i].0 < t.len()
        && built_from(t, ks[i].0 as int, ds, ctxs, ps[i].0 as int)
}

/// `all_built_from` stays true when shapes are added after the table's end.
proof fn lemma_all_built_from_extend(
    t: Seq<ComputableShape>,
    t2: Seq<ComputableShape>,
    ks: Seq<ComputableShapeKey>,
    ds: Seq<ShapeDescription>,
    ctxs: Seq<ShapeDescriptionContext>,
    ps: Seq<ShapeDescriptionKey>,
)
    requires
        all_built_from(t, ks, ds, ctxs, ps),
        t.len() <= t2.len(),
        t2.take(t.len() as int) == t,
    ensures
        all_built_from(t2, ks, ds, ctxs, ps),
{
    assert forall|i: int| #![trigger ks[i]] #![trigger ps[i]] 0 <= i < ps.len() implies ks[i].0 < t2.len()
        && built_from(t2, ks[i].0 as int, ds, ctxs, ps[i].0 as int) by {
        lemma_built_from_extend(t, t2, ks[i].0 as int, ds, ctxs, ps[i].0 as int);
    }
}

impl<'a> GrandShapeContentSummaryAtWork<'a> {
    /// Stores a computable shape at the end of its table.
    pub(crate) fn push_shape(&mut self, shape: ComputableShape) -> (res: ComputableShapeKey)
        ensures
            res.0 == old(self).shapes().len(),
            final(self).shapes() == old(self).shapes().push(shape),
            final(self).grown_from(*old(self)),
            final(self).gsc_summary.computable_shape_table == old(self).gsc_summary.computable_shape_table,
            final(self).gsc_summary.sub_shape_table_buffer == old(self).gsc_summary.sub_shape_table_buffer,
    {
        self.gsc_summary.kv_tables.computable_shape_table.push(shape);
        proof {
            assert(self.shapes().take(old(self).shapes().len() as int) =~= old(self).shapes());
        }
        ComputableShapeKey(self.gsc_summary.kv_tables.computable_shape_table.len() - 1)
    }

    /// Translates descriptions `ps`, in order, each of which must be stored
    /// before `bound`; `None` as soon as one cannot be translated.
    fn build_all(&mut self, ps: &Vec<ShapeDescriptionKey>, bound: ShapeDescriptionKey) -> (res: Option<Vec<ComputableShapeKey>>)
        ensures
            final(self).grown_from(*old(self)),
            final(self).gsc_summary.computable_shape_table == old(self).gsc_summary.computable_shape_table,
            final(self).gsc_summary.sub_shape_table_buffer == old(self).gsc_summary.sub_shape_table_buffer,
            res is Some <==> forall|i: int| #![trigger ps@[i]] 0 <= i < ps@.len() ==> ps@[i].0 < bound.0
                && description_ok(old(self).descriptions(), old(self).description_contexts(), ps@[i].0 as int),
            match res {
                Some(ks) => all_built_from(final(self).shapes(), ks@, old(self).descriptions(), old(self).description_contexts(), ps@),
                None => true,
            },
        decreases bound.0, 0int,
    {
        let ghost ds = self.descriptions();
        let ghost ctxs = self.description_contexts();
        proof {
            lemma_grown_refl(*self);
        }
        let mut ks: Vec<ComputableShapeKey> = Vec::new();
        let mut i: usize = 0;
        while i < ps.len()
            invariant
                i <= ps@.len(),
                self.grown_from(*old(self)),
                self.gsc_summary.computable_shape_table == old(self).gsc_summary.computable_shape_table,
                self.gsc_summary.sub_shape_table_buffer == old(self).gsc_summary.sub_shape_table_buffer,
                ds == old(self).descriptions(),
                ctxs == old(self).description_contexts(),
                forall|j: int| #![trigger ps@[j]] 0 <= j < i ==> ps@[j].0 < bound.0 && description_ok(ds, ctxs, ps@[j].0 as int),
                all_built_from(self.shapes(), ks@, ds, ctxs, ps@.take(i as int)),
            decreases ps@.len() - i,
        {
            let p = ps[i];
            if p.0 >= bound.0 {
                return None;
            }
            let ghost before = self.shapes();
            let ghost st = *self;
            match self.build_computable_shape_from_description(&p) {
                Some(k) => {
                    proof {
                        lemma_grown_trans(*old(self), st, *self);
                        lemma_all_built_from_extend(before, self.shapes(), ks@, ds, ctxs, ps@.take(i as int));
                    }
                    ks.push(k);
                    proof {
                        assert(ps@.take(i + 1) =~= ps@.take(i as int).push(p));
                        let t = self.shapes();
                        assert forall|j: int| #![trigger ks@[j]] #![trigger ps@.take(i + 1)[j]] 0 <= j < i + 1 implies ks@[j].0 < t.len()
                            && built_from(t, ks@[j].0 as int, ds, ctxs, ps@.take(i + 1)[j].0 as int) by {
                            if j < i {
                                assert(ps@.take(i + 1)[j] == ps@.take(i as int)[j]);
                            }
                        }
                    }
                },
                None => {
                    proof {
                        lemma_grown_trans(*old(self), st, *self);
                    }
                    return None;
                },
            }
            i = i + 1;
        }
        proof {
            assert(ps@.take(ps@.len() as int) =~= ps@);
        }
        Some(ks)
    }

    /// Stores the computable shape that description `shape_description`
    /// translates to, its parts first, and hands back its key: an
    /// elementary shape stays elementary, a route with generic arguments and
    /// a generic variable become unresolved shapes (the variable with the
    /// generic parameters of its context), every other form keeps its form
    /// over the translations of its parts; each shape takes the position of
    /// its description.  `None` where the description is not stored, refers
    /// to a description not stored before it, or is a generic variable read
    /// where no generic parameters are in scope.
    pub fn build_computable_shape_from_description(&mut self, shape_description: &ShapeDescriptionKey) -> (res: Option<ComputableShapeKey>)
        ensures
            final(self).grown_from(*old(self)),
            final(self).gsc_summary.computable_shape_table == old(self).gsc_summary.computable_shape_table,
            final(self).gsc_summary.sub_shape_table_buffer == old(self).gsc_summary.sub_shape_table_buffer,
            res is Some <==> description_ok(old(self).descriptions(), old(self).description_contexts(), shape_description.0 as int),
            match res {
                Some(k) => old(self).shapes().len() <= k.0 < final(self).shapes().len() && built_from(
                    final(self).shapes(),
                    k.0 as int,
                    old(self).descriptions(),
                    old(self).description_contexts(),
                    shape_description.0 as int,
                ),
                None => true,
            },
        decreases shape_description.0, 1int,
    {
        let d = shape_description.0;
        proof {
            lemma_grown_refl(*self);
        }
        if d >= self.gsc_summary.kv_tables.shape_description_table.len() {
            return None;
        }
        let ghost ds = self.descriptions();
        let ghost ctxs = self.description_contexts();
        let parts = description_parts(&self.gsc_summary.kv_tables.shape_description_table, d);
        let pos = self.gsc_summary.kv_tables.shape_description_table[d].pos.duplicate();
        let ctx_key = self.gsc_summary.kv_tables.shape_description_table[d].context_key;
        let gut = match parts {
            Parts::Elementary(e) => ComputableShapeGut::Elementary(ElementaryPShape { gut: e, position: Some(pos.duplicate()) }),
            Parts::Specified(route, params) => {
                match self.build_all(&params, *shape_description) {
                    Some(args) => ComputableShapeGut::Unresolved(UnresolvedPShape {
                        gut: UnresolvedPShapeGut::Specified(route, args),
                        position: Some(pos.duplicate()),
                    }),
                    None => {
                        return None;
                    },
                }
            },
            Parts::Generic(name) => {
                if ctx_key.0 >= self.gsc_summary.kv_tables.shape_description_context_table.len() {
                    return None;
                }
                match self.gsc_summary.kv_tables.shape_description_context_table[ctx_key.0].generic_param_key {
                    Some(gk) => ComputableShapeGut::Unresolved(UnresolvedPShape {
                        gut: UnresolvedPShapeGut::GenericVar(name, gk),
                        position: Some(pos.duplicate()),
                    }),
                    None => {
                        return None;
                    },
                }
            },
            Parts::Paren(c) => {
                if c.0 >= d {
                    return None;
                }
                match self.build_computable_shape_from_description(&c) {
                    Some(k) => ComputableShapeGut::ParenSingle(k),
                    None => {
                        return None;
                    },
                }
            },
            Parts::Tuple(v) => {
                match self.build_all(&v, *shape_description) {
                    Some(ks) => ComputableShapeGut::Tuple(ks),
                    None => {
                        return None;
                    },
                }
            },
            Parts::Array(c) => {
                if c.0 >= d {
                    return None;
                }
                match self.build_computable_shape_from_description(&c) {
                    Some(k) => ComputableShapeGut::Array(k),
                    None => {
                        return None;
                    },
                }
            },
            Parts::Mapping(a, b) => {
                match self.build_pair(a, b, *shape_description) {
                    Some((ka, kb)) => ComputableShapeGut::Mapping(ka, kb),
                    None => {
                        return None;
                    },
                }
            },
            Parts::Struct(names, vals) => {
                match self.build_all(&vals, *shape_description) {
                    Some(ks) => {
                        let mut m: KeyedMap<String, ComputableShapeKey> = KeyedMap::new();
                        proof {
                            ds[d as int].gut->Struct_0.lemma_lengths();
                            m.lemma_lengths();
                            assert(m.values() =~= ks@.take(0));
                            assert(names@.map_values(|s: String| s@).len() == names@.len());
                        }
                        let mut j: usize = 0;
                        while j < names.len()
                            invariant
                                j <= names@.len(),
                                names@.len() == ks@.len(),
                                names@.map_values(|s: String| s@).no_duplicates(),
                                m.keys() == names@.map_values(|s: String| s@).take(j as int),
                                m.values() == ks@.take(j as int),
                            decreases names@.len() - j,
                        {
                            proof {
                                let nv = names@.map_values(|s: String| s@);
                                assert(!m.keys().contains(nv[j as int])) by {
                                    if m.keys().contains(nv[j as int]) {
                                        let x = m.keys().index_of(nv[j as int]);
                                        assert(nv[x] == nv[j as int]);
                                    }
                                }
                            }
                            m.push_entry(names[j].clone(), ks[j]);
                            proof {
                                let nv = names@.map_values(|s: String| s@);
                                assert(nv.take(j + 1) =~= nv.take(j as int).push(nv[j as int]));
                                assert(ks@.take(j + 1) =~= ks@.take(j as int).push(ks@[j as int]));
                            }
                            j = j + 1;
                        }
                        proof {
                            assert(names@.map_values(|s: String| s@).take(names@.len() as int) =~= names@.map_values(|s: String| s@));
                            assert(ks@.take(ks@.len() as int) =~= ks@);
                        }
                        ComputableShapeGut::Struct(m)
                    },
                    None => {
                        return None;
                    },
                }
            },
            Parts::Function(args, ret) => {
                match self.build_all(&args, *shape_description) {
                    Some(ks) => {
                        if ret.0 >= d {
                            return None;
                        }
                        let ghost before = self.shapes();
                        let ghost st = *self;
                        let r = self.build_computable_shape_from_description(&ret);
                        proof {
                            lemma_grown_trans(*old(self), st, *self);
                        }
                        match r {
                            Some(kr) => {
                                proof {
                                    lemma_all_built_from_extend(before, self.shapes(), ks@, ds, ctxs, args@);
                                }
                                ComputableShapeGut::Function(ks, kr)
                            },
                            None => {
                                return None;
                            },
                        }
                    },
                    None => {
                        return None;
                    },
                }
            },
            Parts::Union(a, b) => {
                match self.build_pair(a, b, *shape_description) {
                    Some((ka, kb)) => ComputableShapeGut::Union(ka, kb),
                    None => {
                        return None;
                    },
                }
            },
            Parts::Intersection(a, b) => {
                match self.build_pair(a, b, *shape_description) {
                    Some((ka, kb)) => ComputableShapeGut::Intersection(ka, kb),
                    None => {
                        return None;
                    },
                }
            },
        };
        let ghost before = self.shapes();
        let ghost g = gut;
        let ghost p = pos;
        let ghost mid = *self;
        let k = self.push_shape(ComputableShape { gut, position: Some(pos) });
        proof {
            lemma_grown_trans(*old(self), mid, *self);
            let t = self.shapes();
            assert(t[k.0 as int] == ComputableShape { gut: g, position: Some(p) });
            match g {
                ComputableShapeGut::Unresolved(u) => {
                    match u.gut {
                        UnresolvedPShapeGut::Specified(_, args) => {
                            let ps = ds[d as int].gut->Unresolved_0->Specified_1;
                            lemma_all_built_from_extend(before, t, args@, ds, ctxs, ps@);
                        },
                        _ => {},
                    }
                },
                ComputableShapeGut::ParenSingle(c) => {
                    lemma_built_from_extend(before, t, c.0 as int, ds, ctxs, ds[d as int].gut->ParenSingle_0.0 as int);
                },
                ComputableShapeGut::Tuple(v) => {
                    lemma_all_built_from_extend(before, t, v@, ds, ctxs, ds[d as int].gut->Tuple_0@);
                },
                ComputableShapeGut::Array(c) => {
                    lemma_built_from_extend(before, t, c.0 as int, ds, ctxs, ds[d as int].gut->Array_0.0 as int);
                },
                ComputableShapeGut::Mapping(a, b) => {
                    lemma_built_from_extend(before, t, a.0 as int, ds, ctxs, ds[d as int].gut->key.0 as int);
                    lemma_built_from_extend(before, t, b.0 as int, ds, ctxs, ds[d as int].gut->value.0 as int);
                },
                ComputableShapeGut::Struct(m) => {
                    lemma_all_built_from_extend(before, t, m.values(), ds, ctxs, ds[d as int].gut->Struct_0.values());
                },
                ComputableShapeGut::Function(a, r) => {
                    lemma_all_built_from_extend(before, t, a@, ds, ctxs, ds[d as int].gut->args@);
                    lemma_built_from_extend(before, t, r.0 as int, ds, ctxs, ds[d as int].gut->ret.0 as int);
                },
                ComputableShapeGut::Union(a, b) => {
                    lemma_built_from_extend(before, t, a.0 as int, ds, ctxs, ds[d as int].gut->Union_0.0 as int);
                    lemma_built_from_extend(before, t, b.0 as int, ds, ctxs, ds[d as int].gut->Union_1.0 as int);
                },
                ComputableShapeGut::Intersection(a, b) => {
                    lemma_built_from_extend(before, t, a.0 as int, ds, ctxs, ds[d as int].gut->Intersection_0.0 as int);
                    lemma_built_from_extend(before, t, b.0 as int, ds, ctxs, ds[d as int].gut->Intersection_1.0 as int);
                },
                _ => {},
            }
        }
        Some(k)
    }

    /// Translates descriptions `a` then `b`, both of which must be stored
    /// before `bound`.
    fn build_pair(&mut self, a: ShapeDescriptionKey, b: ShapeDescriptionKey, bound: ShapeDescriptionKey) -> (res: Option<(ComputableShapeKey, ComputableShapeKey)>)
        ensures
            final(self).grown_from(*old(self)),
            final(self).gsc_summary.computable_shape_table == old(self).gsc_summary.computable_shape_table,
            final(self).gsc_summary.sub_shape_table_buffer == old(self).gsc_summary.sub_shape_table_buffer,
            res is Some <==> (a.0 < bound.0 && description_ok(old(self).descriptions(), old(self).description_contexts(), a.0 as int)
                && b.0 < bound.0 && description_ok(old(self).descriptions(), old(self).description_contexts(), b.0 as int)),
            match res {
                Some((ka, kb)) => ka.0 < final(self).shapes().len() && kb.0 < final(self).shapes().len()
                    && built_from(final(self).shapes(), ka.0 as int, old(self).descriptions(), old(self).description_contexts(), a.0 as int)
                    && built_from(final(self).shapes(), kb.0 as int, old(self).descriptions(), old(self).description_contexts(), b.0 as int),
                None => true,
            },
        decreases bound.0, 0int,
    {
        let ghost ds = self.descriptions();
        let ghost ctxs = self.description_contexts();
        proof {
            lemma_grown_refl(*self);
        }
        if a.0 >= bound.0 || b.0 >= bound.0 {
            return None;
        }
        match self.build_computable_shape_from_description(&a) {
            Some(ka) => {
                let ghost before = self.shapes();
                let ghost st = *self;
                let r = self.build_computable_shape_from_description(&b);
                proof {
                    lemma_grown_trans(*old(self), st, *self);
                }
                match r {
                    Some(kb) => {
                        proof {
                            lemma_built_from_extend(before, self.shapes(), ka.0 as int, ds, ctxs, a.0 as int);
                        }
                        Some((ka, kb))
                    },
                    None => None,
                }
            },
            None => None,
        }
    }
}


impl<'a> GrandShapeContentSummaryAtWork<'a> {
    /// The key of the computable shape of description `shape_key`: the one
    /// recorded for it, or else the translation of the description, which
    /// is then recorded.  `None`, with nothing recorded, where there is no
    /// record and the description cannot be translated.
    pub fn get_computable_shape_key(&mut self, shape_key: &ShapeDescriptionKey) -> (res: Option<ComputableShapeKey>)
        ensures
            final(self).grown_from(*old(self)),
            old(self).keys_valid() ==> final(self).keys_valid(),
            old(self).keys_valid() ==> match res {
                Some(k) => k.0 < final(self).shapes().len(),
                None => true,
            },
            final(self).gsc_summary.sub_shape_table_buffer == old(self).gsc_summary.sub_shape_table_buffer,
            old(self).gsc_summary.computable_shape_table.has(shape_key.0) ==> {
                &&& res == Some(old(self).gsc_summary.computable_shape_table.at(shape_key.0))
                &&& *final(self) == *old(self)
            },
            !old(self).gsc_summary.computable_shape_table.has(shape_key.0) ==> {
                &&& res is Some <==> description_ok(old(self).descriptions(), old(self).description_contexts(), shape_key.0 as int)
                &&& match res {
                    Some(k) => old(self).shapes().len() <= k.0 < final(self).shapes().len() && built_from(
                        final(self).shapes(),
                        k.0 as int,
                        old(self).descriptions(),
                        old(self).description_contexts(),
                        shape_key.0 as int,
                    ) && final(self).gsc_summary.computable_shape_table.as_map()
                        == old(self).gsc_summary.computable_shape_table.as_map().insert(shape_key.0, k),
                    None => final(self).gsc_summary.computable_shape_table == old(self).gsc_summary.computable_shape_table,
                }
            },
    {
        if self.has_simple_shape(shape_key) {
            proof {
                lemma_grown_refl(*self);
            }
            return Some(*self.gsc_summary.computable_shape_table.get(shape_key).unwrap());
        }
        match self.build_computable_shape_from_description(shape_key) {
            Some(k) => {
                let ghost mid = *self;
                self.gsc_summary.computable_shape_table.insert(*shape_key, k);
                proof {
                    if old(self).keys_valid() {
                        lemma_keys_valid_grown(*old(self), mid);
                    }
                    assert(self.shapes() == mid.shapes());
                    assert(self.grown_from(mid)) by {
                        lemma_grown_refl(mid);
                    }
                    lemma_grown_trans(*old(self), mid, *self);
                }
                Some(k)
            },
            None => None,
        }
    }
}

} // verus!
