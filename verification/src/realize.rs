use vstd::prelude::*;
use crate::computable_shape::{ComputableShape, ComputableShapeGut, UnresolvedPShape, UnresolvedPShapeGut};
use crate::keyed::KeyedMap;
use crate::parsed::{ParsedPosition, PositionView};
use crate::route::RouteView;
use crate::shape_data::{ShapeContentHeadKey, ShapeHeadView};
use crate::shape_keys::ShapeDescriptionKey;
use crate::route::Route;
use crate::shape_build::{built_from, description_ok, lemma_built_from_extend, lemma_grown_refl, lemma_grown_trans};
use crate::shape_data::GenericParamDef;
use crate::elementary_shape::{ElementaryPShape, ElementaryShape};
use crate::shape_keys::{ComputableShapeKey, GenericParamDescriptionKey};
use crate::shape_summary::GrandShapeContentSummaryAtWork;

verus! {

/// What replacing the generic variable `name` of the parameters `gk`
/// gives, from `old` to `new` (see `substitute_generic`).
pub open spec fn generic_substituted(
    old: GrandShapeContentSummaryAtWork,
    new: GrandShapeContentSummaryAtWork,
    name: Seq<char>,
    gk: GenericParamDescriptionKey,
    res: Option<ComputableShapeKey>,
) -> bool {
    let gps = old.gsc_summary.kv_tables.generic_param_description_table@;
    if gk.0 >= gps.len() {
        res is None && new == old
    } else {
        let params = gps[gk.0 as int].params@;
        if !exists|i: int| first_selectable(old, params, name, i) {
            res is None && new.gsc_summary.computable_shape_table == old.gsc_summary.computable_shape_table
        } else {
            let i = choose|i: int| first_selectable(old, params, name, i);
            match params[i] {
                GenericParamDef::Variable(_) => res == Some(old.gsc_summary.ecs_key_table.at(ElementaryShape::Any))
                    && new.gsc_summary.computable_shape_table == old.gsc_summary.computable_shape_table,
                GenericParamDef::Guarded(_, g) => {
                    let m = new.gsc_summary.computable_shape_table;
                    &&& m.has(g.0)
                    &&& m.as_map() == old.gsc_summary.computable_shape_table.as_map().insert(g.0, m.at(g.0))
                    &&& old.gsc_summary.computable_shape_table.has(g.0)
                        ==> m.at(g.0) == old.gsc_summary.computable_shape_table.at(g.0)
                    &&& !old.gsc_summary.computable_shape_table.has(g.0) ==> built_from(
                        new.shapes(),
                        m.at(g.0).0 as int,
                        old.descriptions(),
                        old.description_contexts(),
                        g.0 as int,
                    )
                    &&& res matches Some(k) && k.0 == new.shapes().len() - 1
                        && repositioned(new.shapes(), k.0 as int, m.at(g.0).0 as int, None)
                },
            }
        }
    }
}

/// What replacing the shape named `head` with the arguments `args` gives,
/// from `old` to `new` (see `substitute_simple_shape`).
pub open spec fn simple_substituted(
    old: GrandShapeContentSummaryAtWork,
    new: GrandShapeContentSummaryAtWork,
    head: RouteView,
    args: Seq<ComputableShapeKey>,
    res: Option<ComputableShapeKey>,
) -> bool {
    match definition_keys(old, head) {
        None => res is None && new == old,
        Some((dk, gk)) => {
            let om = old.gsc_summary.computable_shape_table;
            let m = new.gsc_summary.computable_shape_table;
            if !om.has(dk.0) && !description_ok(old.descriptions(), old.description_contexts(), dk.0 as int) {
                res is None
            } else {
                &&& m.has(dk.0)
                &&& om.has(dk.0) ==> m == om
                &&& !om.has(dk.0) ==> built_from(
                    new.shapes(),
                    m.at(dk.0).0 as int,
                    old.descriptions(),
                    old.description_contexts(),
                    dk.0 as int,
                ) && m.as_map() == om.as_map().insert(dk.0, m.at(dk.0))
                &&& res == Some(simple_substitution(
                    new.shapes(),
                    m.at(dk.0),
                    old.gsc_summary.kv_tables.generic_param_description_table@[gk.0 as int].params@,
                    args,
                    old.gsc_summary.ecs_key_table.at(ElementaryShape::Any),
                ))
            }
        },
    }
}

/// The view of an optional position.
pub open spec fn pos_view(o: Option<ParsedPosition>) -> Option<PositionView> {
    match o {
        Some(p) => Some(p@),
        None => None,
    }
}

/// A copy of an optional position.
pub fn copy_position(o: &Option<ParsedPosition>) -> (res: Option<ParsedPosition>)
    ensures
        pos_view(res) == pos_view(*o),
{
    match o {
        Some(p) => Some(p.duplicate()),
        None => None,
    }
}

/// Whether part `c2` of a repositioned shape stands for part `c` of shape
/// `o`: parts stored before `o` are repositioned copies stored before `n`,
/// others are kept.
pub open spec fn part_repositioned(t: Seq<ComputableShape>, c2: ComputableShapeKey, c: ComputableShapeKey, n: int, o: int, pos: Option<PositionView>) -> bool
    decreases o, 0int,
{
    if 0 <= c.0 < o {
        c2.0 < n && repositioned(t, c2.0 as int, c.0 as int, pos)
    } else {
        c2 == c
    }
}

/// Whether shape `n` of table `t` is shape `o` moved to position `pos`: it
/// has `pos`, and a route with generic arguments, a tuple, an array, a
/// mapping, a struct or a function has its parts moved too (a route with
/// generic arguments takes `pos` on its unresolved part as well); every
/// other shape keeps its form and parts as they are.
pub open spec fn repositioned(t: Seq<ComputableShape>, n: int, o: int, pos: Option<PositionView>) -> bool
    decreases o, 1int,
{
    if n < 0 || n >= t.len() || o < 0 || o >= t.len() {
        false
    } else {
        let s = t[n];
        let src = t[o];
        &&& pos_view(s.position) == pos
        &&& match src.gut {
            ComputableShapeGut::Elementary(e) => s.gut matches ComputableShapeGut::Elementary(e2) && e2.gut == e.gut
                && pos_view(e2.position) == pos_view(e.position),
            ComputableShapeGut::Unresolved(u) => s.gut is Unresolved && match u.gut {
                UnresolvedPShapeGut::Specified(r, args) => pos_view(s.gut->Unresolved_0.position) == pos
                    && s.gut->Unresolved_0.gut is Specified && s.gut->Unresolved_0.gut->Specified_0@ == r@
                    && s.gut->Unresolved_0.gut->Specified_1.len() == args.len() && forall|i: int|
                    #![trigger args[i]] #![trigger s.gut->Unresolved_0.gut->Specified_1[i]]
                    0 <= i < args.len() ==> part_repositioned(t, s.gut->Unresolved_0.gut->Specified_1[i], args[i], n, o, pos),
                UnresolvedPShapeGut::GenericVar(name, gk) => pos_view(s.gut->Unresolved_0.position) == pos_view(u.position)
                    && s.gut->Unresolved_0.gut is GenericVar && s.gut->Unresolved_0.gut->GenericVar_0@ == name@
                    && s.gut->Unresolved_0.gut->GenericVar_1 == gk,
            },
            ComputableShapeGut::ParenSingle(c) => s.gut == ComputableShapeGut::ParenSingle(c),
            ComputableShapeGut::Tuple(v) => s.gut is Tuple && s.gut->Tuple_0.len() == v.len() && forall|i: int|
                #![trigger v[i]] #![trigger s.gut->Tuple_0[i]]
                0 <= i < v.len() ==> part_repositioned(t, s.gut->Tuple_0[i], v[i], n, o, pos),
            ComputableShapeGut::Array(c) => s.gut is Array && part_repositioned(t, s.gut->Array_0, c, n, o, pos),
            ComputableShapeGut::Mapping(a, b) => s.gut is Mapping && part_repositioned(t, s.gut->Mapping_0, a, n, o, pos)
                && part_repositioned(t, s.gut->Mapping_1, b, n, o, pos),
            ComputableShapeGut::Struct(m) => s.gut is Struct && s.gut->Struct_0.keys() == m.keys()
                && s.gut->Struct_0.values().len() == m.values().len() && forall|i: int|
                #![trigger m.values()[i]] #![trigger s.gut->Struct_0.values()[i]]
                0 <= i < m.values().len() ==> part_repositioned(t, s.gut->Struct_0.values()[i], m.values()[i], n, o, pos),
            ComputableShapeGut::Function(ps, r) => s.gut is Function && s.gut->Function_0.len() == ps.len() && (forall|i: int|
                #![trigger ps[i]] #![trigger s.gut->Function_0[i]]
                0 <= i < ps.len() ==> part_repositioned(t, s.gut->Function_0[i], ps[i], n, o, pos))
                && part_repositioned(t, s.gut->Function_1, r, n, o, pos),
            ComputableShapeGut::Union(a, b) => s.gut == ComputableShapeGut::Union(a, b),
            ComputableShapeGut::Intersection(a, b) => s.gut == ComputableShapeGut::Intersection(a, b),
        }
    }
}

/// A repositioned copy stays one when shapes are added after the table's
/// end.
pub proof fn lemma_repositioned_extend(t: Seq<ComputableShape>, t2: Seq<ComputableShape>, n: int, o: int, pos: Option<PositionView>)
    requires
        repositioned(t, n, o, pos),
        t.len() <= t2.len(),
        t2.take(t.len() as int) == t,
    ensures
        repositioned(t2, n, o, pos),
    decreases o, 1int,
{
    assert(t2[n] == t[n] && t2[o] == t[o]) by {
        assert(t2.take(t.len() as int)[n] == t2[n]);
        assert(t2.take(t.len() as int)[o] == t2[o]);
    }
    let s = t[n];
    match t[o].gut {
        ComputableShapeGut::Unresolved(u) => {
            match u.gut {
                UnresolvedPShapeGut::Specified(_, args) => {
                    let a2 = s.gut->Unresolved_0.gut->Specified_1;
                    assert forall|i: int| #![trigger args[i]] #![trigger a2[i]] 0 <= i < args.len()
                        implies part_repositioned(t2, a2[i], args[i], n, o, pos) by {
                        lemma_part_repositioned_extend(t, t2, a2[i], args[i], n, o, pos);
                    }
                },
                _ => {},
            }
        },
        ComputableShapeGut::Tuple(v) => {
            let v2 = s.gut->Tuple_0;
            assert forall|i: int| #![trigger v[i]] #![trigger v2[i]] 0 <= i < v.len()
                implies part_repositioned(t2, v2[i], v[i], n, o, pos) by {
                lemma_part_repositioned_extend(t, t2, v2[i], v[i], n, o, pos);
            }
        },
        ComputableShapeGut::Array(c) => {
            lemma_part_repositioned_extend(t, t2, s.gut->Array_0, c, n, o, pos);
        },
        ComputableShapeGut::Mapping(a, b) => {
            lemma_part_repositioned_extend(t, t2, s.gut->Mapping_0, a, n, o, pos);
            lemma_part_repositioned_extend(t, t2, s.gut->Mapping_1, b, n, o, pos);
        },
        ComputableShapeGut::Struct(m) => {
            let m2 = s.gut->Struct_0;
            assert forall|i: int| #![trigger m.values()[i]] #![trigger m2.values()[i]] 0 <= i < m.values().len()
                implies part_repositioned(t2, m2.values()[i], m.values()[i], n, o, pos) by {
                lemma_part_repositioned_extend(t, t2, m2.values()[i], m.values()[i], n, o, pos);
            }
        },
        ComputableShapeGut::Function(ps, r) => {
            let p2 = s.gut->Function_0;
            assert forall|i: int| #![trigger ps[i]] #![trigger p2[i]] 0 <= i < ps.len()
                implies part_repositioned(t2, p2[i], ps[i], n, o, pos) by {
                lemma_part_repositioned_extend(t, t2, p2[i], ps[i], n, o, pos);
            }
            lemma_part_repositioned_extend(t, t2, s.gut->Function_1, r, n, o, pos);
        },
        _ => {},
    }
}

/// `part_repositioned` stays true when shapes are added after the table's
/// end.
pub proof fn lemma_part_repositioned_extend(
    t: Seq<ComputableShape>,
    t2: Seq<ComputableShape>,
    c2: ComputableShapeKey,
    c: ComputableShapeKey,
    n: int,
    o: int,
    pos: Option<PositionView>,
)
    requires
        part_repositioned(t, c2, c, n, o, pos),
        t.len() <= t2.len(),
        t2.take(t.len() as int) == t,
    ensures
        part_repositioned(t2, c2, c, n, o, pos),
    decreases o, 0int,
{
    if 0 <= c.0 < o {
        lemma_repositioned_extend(t, t2, c2.0 as int, c.0 as int, pos);
    }
}


/// Whether `ks2` stand for the parts `ks` of shape `o`, in order.
pub open spec fn parts_repositioned(t: Seq<ComputableShape>, ks2: Seq<ComputableShapeKey>, ks: Seq<ComputableShapeKey>, n: int, o: int, pos: Option<PositionView>) -> bool {
    &&& ks2.len() == ks.len()
    &&& forall|i: int| #![trigger ks[i]] #![trigger ks2[i]] 0 <= i < ks.len() ==> part_repositioned(t, ks2[i], ks[i], n, o, pos)
}

/// Parts stay repositioned in a longer table and under a later bound.
proof fn lemma_parts_repositioned_extend(
    t: Seq<ComputableShape>,
    t2: Seq<ComputableShape>,
    ks2: Seq<ComputableShapeKey>,
    ks: Seq<ComputableShapeKey>,
    n: int,
    n2: int,
    o: int,
    pos: Option<PositionView>,
)
    requires
        parts_repositioned(t, ks2, ks, n, o, pos),
        t.len() <= t2.len(),
        t2.take(t.len() as int) == t,
        n <= n2,
    ensures
        parts_repositioned(t2, ks2, ks, n2, o, pos),
{
    assert forall|i: int| #![trigger ks[i]] #![trigger ks2[i]] 0 <= i < ks.len() implies part_repositioned(t2, ks2[i], ks[i], n2, o, pos) by {
        lemma_part_repositioned_extend(t, t2, ks2[i], ks[i], n, o, pos);
    }
}

/// The parts of a computable shape, copied out of the summary.
enum ShapeParts {
    Elementary(ElementaryPShape),
    Specified(Route, Vec<ComputableShapeKey>),
    GenericVar(String, GenericParamDescriptionKey, Option<ParsedPosition>),
    Paren(ComputableShapeKey),
    Tuple(Vec<ComputableShapeKey>),
    Array(ComputableShapeKey),
    Mapping(ComputableShapeKey, ComputableShapeKey),
    Struct(Vec<String>, Vec<ComputableShapeKey>),
    Function(Vec<ComputableShapeKey>, ComputableShapeKey),
    Union(ComputableShapeKey, ComputableShapeKey),
    Intersection(ComputableShapeKey, ComputableShapeKey),
}

/// Whether `p` holds the parts of `g`.
spec fn shape_parts_of(p: ShapeParts, g: ComputableShapeGut) -> bool {
    match (p, g) {
        (ShapeParts::Elementary(a), ComputableShapeGut::Elementary(b)) => a.gut == b.gut && pos_view(a.position) == pos_view(b.position),
        (ShapeParts::Specified(r, v), ComputableShapeGut::Unresolved(u)) => u.gut matches UnresolvedPShapeGut::Specified(r2, v2)
            && r@ == r2@ && v@ == v2@,
        (ShapeParts::GenericVar(n, k, p), ComputableShapeGut::Unresolved(u)) => u.gut matches UnresolvedPShapeGut::GenericVar(n2, k2)
            && n@ == n2@ && k == k2 && pos_view(p) == pos_view(u.position),
        (ShapeParts::Paren(a), ComputableShapeGut::ParenSingle(b)) => a == b,
        (ShapeParts::Tuple(v), ComputableShapeGut::Tuple(v2)) => v@ == v2@,
        (ShapeParts::Array(a), ComputableShapeGut::Array(b)) => a == b,
        (ShapeParts::Mapping(a, b), ComputableShapeGut::Mapping(a2, b2)) => a == a2 && b == b2,
        (ShapeParts::Struct(ks, vs), ComputableShapeGut::Struct(m)) => ks@.map_values(|s: String| s@) == m.keys()
            && m.keys().no_duplicates() && vs@ == m.values(),
        (ShapeParts::Function(v, r), ComputableShapeGut::Function(v2, r2)) => v@ == v2@ && r == r2,
        (ShapeParts::Union(a, b), ComputableShapeGut::Union(a2, b2)) => a == a2 && b == b2,
        (ShapeParts::Intersection(a, b), ComputableShapeGut::Intersection(a2, b2)) => a == a2 && b == b2,
        _ => false,
    }
}

/// A copy of a list of keys.
fn copy_shape_keys(v: &Vec<ComputableShapeKey>) -> (res: Vec<ComputableShapeKey>)
    ensures
        res@ == v@,
{
    let mut res: Vec<ComputableShapeKey> = Vec::new();
    let mut i: usize = 0;
    while i < v.len()
        invariant
            i <= v@.len(),
            res@ == v@.take(i as int),
        decreases v.len() - i,
    {
        res.push(v[i]);
        proof {
            assert(v@.take(i + 1) =~= v@.take(i as int).push(v@[i as int]));
        }
        i = i + 1;
    }
    proof {
        assert(v@.take(v@.len() as int) =~= v@);
    }
    res
}

/// The parts of shape `i`.
fn shape_parts(shapes: &Vec<ComputableShape>, i: usize) -> (res: ShapeParts)
    requires
        i < shapes@.len(),
    ensures
        shape_parts_of(res, shapes@[i as int].gut),
{
    match &shapes[i].gut {
        ComputableShapeGut::Elementary(e) => ShapeParts::Elementary(ElementaryPShape { gut: e.gut, position: copy_position(&e.position) }),
        ComputableShapeGut::Unresolved(u) => match &u.gut {
            UnresolvedPShapeGut::Specified(r, v) => ShapeParts::Specified(r.duplicate(), copy_shape_keys(v)),
            UnresolvedPShapeGut::GenericVar(n, k) => ShapeParts::GenericVar(n.clone(), *k, copy_position(&u.position)),
        },
        ComputableShapeGut::ParenSingle(a) => ShapeParts::Paren(*a),
        ComputableShapeGut::Tuple(v) => ShapeParts::Tuple(copy_shape_keys(v)),
        ComputableShapeGut::Array(a) => ShapeParts::Array(*a),
        ComputableShapeGut::Mapping(a, b) => ShapeParts::Mapping(*a, *b),
        ComputableShapeGut::Struct(m) => {
            proof {
                use_type_invariant(m);
                m.lemma_lengths();
            }
            let mut ks: Vec<String> = Vec::new();
            let mut vs: Vec<ComputableShapeKey> = Vec::new();
            let mut j: usize = 0;
            while j < m.len()
                invariant
                    j <= m.size(),
                    m.keys().len() == m.size(),
                    m.values().len() == m.size(),
                    ks@.map_values(|s: String| s@) == m.keys().take(j as int),
                    vs@ == m.values().take(j as int),
                decreases m.size() - j,
            {
                ks.push(m.key_at(j).clone());
                vs.push(*m.value_at(j));
                proof {
                    assert(m.keys().take(j + 1) =~= m.keys().take(j as int).push(m.keys()[j as int]));
                    assert(ks@.map_values(|s: String| s@) =~= m.keys().take(j + 1));
                    assert(m.values().take(j + 1) =~= m.values().take(j as int).push(m.values()[j as int]));
                }
                j = j + 1;
            }
            proof {
                assert(m.keys().take(m.size() as int) =~= m.keys());
                assert(m.values().take(m.size() as int) =~= m.values());
            }
            ShapeParts::Struct(ks, vs)
        },
        ComputableShapeGut::Function(v, r) => ShapeParts::Function(copy_shape_keys(v), *r),
        ComputableShapeGut::Union(a, b) => ShapeParts::Union(*a, *b),
        ComputableShapeGut::Intersection(a, b) => ShapeParts::Intersection(*a, *b),
    }
}

impl<'a> GrandShapeContentSummaryAtWork<'a> {
    /// Moves parts `ks` of shape `o` to `position`, in order.
    fn reposition_all(&mut self, ks: &Vec<ComputableShapeKey>, o: usize, position: &Option<ParsedPosition>) -> (res: Vec<ComputableShapeKey>)
        requires
            o < old(self).shapes().len(),
        ensures
            final(self).grown_from(*old(self)),
            final(self).gsc_summary.computable_shape_table == old(self).gsc_summary.computable_shape_table,
            final(self).gsc_summary.sub_shape_table_buffer == old(self).gsc_summary.sub_shape_table_buffer,
            parts_repositioned(final(self).shapes(), res@, ks@, final(self).shapes().len() as int, o as int, pos_view(*position)),
        decreases o, 0int,
    {
        proof {
            lemma_grown_refl(*self);
        }
        let ghost pos = pos_view(*position);
        let mut res: Vec<ComputableShapeKey> = Vec::new();
        let mut i: usize = 0;
        while i < ks.len()
            invariant
                i <= ks@.len(),
                o < old(self).shapes().len(),
                self.grown_from(*old(self)),
                self.gsc_summary.computable_shape_table == old(self).gsc_summary.computable_shape_table,
                self.gsc_summary.sub_shape_table_buffer == old(self).gsc_summary.sub_shape_table_buffer,
                pos == pos_view(*position),
                parts_repositioned(self.shapes(), res@, ks@.take(i as int), self.shapes().len() as int, o as int, pos),
            decreases ks@.len() - i,
        {
            let c = ks[i];
            let ghost before = self.shapes();
            let ghost st = *self;
            let c2 = if c.0 < o {
                let k = self.substitute_position(c, copy_position(position));
                proof {
                    lemma_grown_trans(*old(self), st, *self);
                    lemma_parts_repositioned_extend(before, self.shapes(), res@, ks@.take(i as int), before.len() as int,
                        self.shapes().len() as int, o as int, pos);
                }
                k
            } else {
                proof {
                    lemma_grown_refl(*self);
                }
                c
            };
            res.push(c2);
            proof {
                let t = self.shapes();
                assert(ks@.take(i + 1) =~= ks@.take(i as int).push(c));
                assert forall|j: int| #![trigger ks@.take(i + 1)[j]] #![trigger res@[j]] 0 <= j < i + 1
                    implies part_repositioned(t, res@[j], ks@.take(i + 1)[j], t.len() as int, o as int, pos) by {
                    if j < i {
                        assert(ks@.take(i + 1)[j] == ks@.take(i as int)[j]);
                    }
                }
            }
            i = i + 1;
        }
        proof {
            assert(ks@.take(ks@.len() as int) =~= ks@);
        }
        res
    }

    /// Stores a copy of shape `shape_key` that has `position`; a route
    /// with generic arguments, a tuple, an array, a mapping, a struct and a
    /// function get copies of their parts moved to `position` too (a
    /// route also takes it on its unresolved part), other shapes keep their
    /// parts.  Parts stored at or after the shape itself are kept as they
    /// are.
    pub fn substitute_position(&mut self, shape_key: ComputableShapeKey, position: Option<ParsedPosition>) -> (res: ComputableShapeKey)
        requires
            shape_key.0 < old(self).shapes().len(),
        ensures
            final(self).grown_from(*old(self)),
            final(self).gsc_summary.computable_shape_table == old(self).gsc_summary.computable_shape_table,
            final(self).gsc_summary.sub_shape_table_buffer == old(self).gsc_summary.sub_shape_table_buffer,
            old(self).shapes().len() <= res.0,
            res.0 == final(self).shapes().len() - 1,
            repositioned(final(self).shapes(), res.0 as int, shape_key.0 as int, pos_view(position)),
        decreases shape_key.0, 1int,
    {
        let o = shape_key.0;
        let ghost pos = pos_view(position);
        let ghost src = self.shapes()[o as int];
        let parts = shape_parts(&self.gsc_summary.kv_tables.computable_shape_table, o);
        proof {
            lemma_grown_refl(*self);
        }
        let ghost st0 = *self;
        let ghost mut reps: Seq<ComputableShapeKey> = Seq::empty();
        let ghost mut srcs: Seq<ComputableShapeKey> = Seq::empty();
        let gut = match parts {
            ShapeParts::Elementary(e) => ComputableShapeGut::Elementary(e),
            ShapeParts::Specified(route, args) => {
                let args2 = self.reposition_all(&args, o, &position);
                proof {
                    reps = args2@;
                    srcs = args@;
                }
                ComputableShapeGut::Unresolved(UnresolvedPShape {
                    gut: UnresolvedPShapeGut::Specified(route, args2),
                    position: copy_position(&position),
                })
            },
            ShapeParts::GenericVar(n, k, p) => ComputableShapeGut::Unresolved(UnresolvedPShape {
                gut: UnresolvedPShapeGut::GenericVar(n, k),
                position: p,
            }),
            ShapeParts::Paren(c) => ComputableShapeGut::ParenSingle(c),
            ShapeParts::Tuple(v) => {
                let v2 = self.reposition_all(&v, o, &position);
                proof {
                    reps = v2@;
                    srcs = v@;
                }
                ComputableShapeGut::Tuple(v2)
            },
            ShapeParts::Array(c) => {
                let v = vec![c];
                let v2 = self.reposition_all(&v, o, &position);
                proof {
                    assert(v@[0] == c);
                    reps = v2@;
                    srcs = v@;
                }
                ComputableShapeGut::Array(v2[0])
            },
            ShapeParts::Mapping(a, b) => {
                let v = vec![a, b];
                let v2 = self.reposition_all(&v, o, &position);
                proof {
                    assert(v@[0] == a && v@[1] == b);
                    reps = v2@;
                    srcs = v@;
                }
                ComputableShapeGut::Mapping(v2[0], v2[1])
            },
            ShapeParts::Struct(names, vals) => {
                let ks = self.reposition_all(&vals, o, &position);
                proof {
                    reps = ks@;
                    srcs = vals@;
                }
                let mut m: KeyedMap<String, ComputableShapeKey> = KeyedMap::new();
                proof {
                    src.gut->Struct_0.lemma_lengths();
                    m.lemma_lengths();
                    assert(m.values() =~= ks@.take(0));
                    assert(names@.map_values(|s: String| s@).len() == names@.len());
                }
                let mut j: usize = 0;
                while j < names.len()
                    invariant
                        j <= names@.len(),
                        names@.len() == ks@.len(),
                        names@.map_values(|s: String| s@).no_duplicates(),
                        m.keys() == names@.map_values(|s: String| s@).take(j as int),
                        m.values() == ks@.take(j as int),
                    decreases names@.len() - j,
                {
                    proof {
                        let nv = names@.map_values(|s: String| s@);
                        assert(!m.keys().contains(nv[j as int])) by {
                            if m.keys().contains(nv[j as int]) {
                                let x = m.keys().index_of(nv[j as int]);
                                assert(nv[x] == nv[j as int]);
                            }
                        }
                    }
                    m.push_entry(names[j].clone(), ks[j]);
                    proof {
                        let nv = names@.map_values(|s: String| s@);
                        assert(nv.take(j + 1) =~= nv.take(j as int).push(nv[j as int]));
                        assert(ks@.take(j + 1) =~= ks@.take(j as int).push(ks@[j as int]));
                    }
                    j = j + 1;
                }
                proof {
                    assert(names@.map_values(|s: String| s@).take(names@.len() as int) =~= names@.map_values(|s: String| s@));
                    assert(ks@.take(ks@.len() as int) =~= ks@);
                }
                ComputableShapeGut::Struct(m)
            },
            ShapeParts::Function(ps, r) => {
                let mut v = copy_shape_keys(&ps);
                v.push(r);
                let v2 = self.reposition_all(&v, o, &position);
                proof {
                    reps = v2@;
                    srcs = v@;
                }
                let mut ps2: Vec<ComputableShapeKey> = Vec::new();
                let mut j: usize = 0;
                while j < ps.len()
                    invariant
                        j <= ps@.len(),
                        v2@.len() == ps@.len() + 1,
                        ps2@ == v2@.take(j as int),
                    decreases ps@.len() - j,
                {
                    ps2.push(v2[j]);
                    proof {
                        assert(v2@.take(j + 1) =~= v2@.take(j as int).push(v2@[j as int]));
                    }
                    j = j + 1;
                }
                let r2 = v2[ps.len()];
                proof {
                    assert(v@ == ps@.push(r));
                    assert(v2@.take(ps@.len() as int) =~= ps2@);
                }
                ComputableShapeGut::Function(ps2, r2)
            },
            ShapeParts::Union(a, b) => ComputableShapeGut::Union(a, b),
            ShapeParts::Intersection(a, b) => ComputableShapeGut::Intersection(a, b),
        };
        let ghost g = gut;
        let ghost mid = *self;
        proof {
            lemma_grown_trans(*old(self), st0, mid);
        }
        let k = self.push_shape(ComputableShape { gut, position });
        proof {
            lemma_grown_trans(*old(self), mid, *self);
            let t = self.shapes();
            assert(t[o as int] == src) by {
                assert(t.take(old(self).shapes().len() as int)[o as int] == t[o as int]);
            }
            assert(t[k.0 as int].gut == g);
            if parts_repositioned(mid.shapes(), reps, srcs, mid.shapes().len() as int, o as int, pos) {
                lemma_parts_repositioned_extend(mid.shapes(), t, reps, srcs, mid.shapes().len() as int, k.0 as int, o as int, pos);
            }
            match src.gut {
                ComputableShapeGut::Array(c) => {
                    assert(part_repositioned(t, reps[0], srcs[0], k.0 as int, o as int, pos));
                },
                ComputableShapeGut::Mapping(a, b) => {
                    assert(part_repositioned(t, reps[0], srcs[0], k.0 as int, o as int, pos));
                    assert(part_repositioned(t, reps[1], srcs[1], k.0 as int, o as int, pos));
                },
                ComputableShapeGut::Struct(m) => {
                    let m2 = g->Struct_0;
                    assert forall|i: int| #![trigger m.values()[i]] #![trigger m2.values()[i]] 0 <= i < m.values().len()
                        implies part_repositioned(t, m2.values()[i], m.values()[i], k.0 as int, o as int, pos) by {
                        assert(reps[i] == m2.values()[i] && srcs[i] == m.values()[i]);
                    }
                },
                ComputableShapeGut::Function(ps, r) => {
                    let p2 = g->Function_0;
                    assert forall|i: int| #![trigger ps[i]] #![trigger p2[i]] 0 <= i < ps.len()
                        implies part_repositioned(t, p2[i], ps[i], k.0 as int, o as int, pos) by {
                        assert(reps.take(ps.len() as int)[i] == reps[i]);
                        assert(srcs[i] == ps[i]);
                    }
                    assert(srcs[ps.len() as int] == r);
                    assert(part_repositioned(t, reps[ps.len() as int], srcs[ps.len() as int], k.0 as int, o as int, pos));
                },
                _ => {},
            }
        }
        k
    }
}


/// Whether generic parameter `p` can stand in for the generic variable
/// `name`: it has that name, and is a plain variable or is guarded by a
/// description whose computable shape is recorded or can be built.
pub open spec fn param_selectable(s: GrandShapeContentSummaryAtWork, p: GenericParamDef, name: Seq<char>) -> bool {
    p.name_of() == name && match p {
        GenericParamDef::Variable(_) => true,
        GenericParamDef::Guarded(_, g) => s.gsc_summary.computable_shape_table.has(g.0)
            || description_ok(s.descriptions(), s.description_contexts(), g.0 as int),
    }
}

/// Whether `i` is the first parameter of `params` that can stand in for
/// the generic variable `name`.
pub open spec fn first_selectable(s: GrandShapeContentSummaryAtWork, params: Seq<GenericParamDef>, name: Seq<char>, i: int) -> bool {
    &&& 0 <= i < params.len()
    &&& param_selectable(s, params[i], name)
    &&& forall|j: int| 0 <= j < i ==> !param_selectable(s, #[trigger] params[j], name)
}

impl<'a> GrandShapeContentSummaryAtWork<'a> {
    /// The shape the generic variable `this_generic_var` of the parameter
    /// list `generic_param_key` stands for: the first parameter of that
    /// name that can stand in for it decides; a plain variable stands for
    /// `Any`, a guarded one for a copy of its guard's computable shape with
    /// no position.  `None` where the list is not stored or no parameter
    /// can stand in.
    pub fn substitute_generic(&mut self, this_generic_var: String, generic_param_key: GenericParamDescriptionKey) -> (res: Option<ComputableShapeKey>)
        requires
            old(self).gsc_summary.ecs_key_table.has(ElementaryShape::Any),
            old(self).keys_valid(),
        ensures
            final(self).grown_from(*old(self)),
            final(self).keys_valid(),
            final(self).gsc_summary.sub_shape_table_buffer == old(self).gsc_summary.sub_shape_table_buffer,
            match res {
                Some(k) => k.0 < final(self).shapes().len(),
                None => true,
            },
            generic_substituted(*old(self), *final(self), this_generic_var@, generic_param_key, res),
    {
        proof {
            lemma_grown_refl(*self);
        }
        if generic_param_key.0 >= self.gsc_summary.kv_tables.generic_param_description_table.len() {
            return None;
        }
        let ghost s0 = *self;
        let ghost params = self.gsc_summary.kv_tables.generic_param_description_table@[generic_param_key.0 as int].params@;
        let n = self.gsc_summary.kv_tables.generic_param_description_table[generic_param_key.0].params.len();
        let mut i: usize = 0;
        while i < n
            invariant
                i <= n,
                n == params.len(),
                self.grown_from(s0),
                s0 == *old(self),
                self.gsc_summary.computable_shape_table == s0.gsc_summary.computable_shape_table,
                self.gsc_summary.sub_shape_table_buffer == s0.gsc_summary.sub_shape_table_buffer,
                generic_param_key.0 < s0.gsc_summary.kv_tables.generic_param_description_table@.len(),
                params == s0.gsc_summary.kv_tables.generic_param_description_table@[generic_param_key.0 as int].params@,
                s0.gsc_summary.ecs_key_table.has(ElementaryShape::Any),
                s0.keys_valid(),
                self.keys_valid(),
                forall|j: int| 0 <= j < i ==> !param_selectable(s0, #[trigger] params[j], this_generic_var@),
            decreases n - i,
        {
            let (pname, guard) = match &self.gsc_summary.kv_tables.generic_param_description_table[generic_param_key.0].params[i] {
                GenericParamDef::Variable(v) => (v.clone(), None),
                GenericParamDef::Guarded(v, g) => (v.clone(), Some(*g)),
            };
            proof {
                assert(self.gsc_summary.kv_tables.generic_param_description_table == s0.gsc_summary.kv_tables.generic_param_description_table);
                assert(pname@ == params[i as int].name_of());
            }
            if pname == this_generic_var {
                match guard {
                    None => {
                        proof {
                            assert(first_selectable(s0, params, this_generic_var@, i as int));
                            assert forall|j: int| first_selectable(s0, params, this_generic_var@, j) implies j == i by {
                                if j < i {
                                    assert(!param_selectable(s0, params[j], this_generic_var@));
                                }
                                if j > i {
                                    assert(!param_selectable(s0, params[i as int], this_generic_var@));
                                }
                            }
                        }
                        let k = *self.ask_for_ecs_key(&ElementaryShape::Any);
                        return Some(k);
                    },
                    Some(g) => {
                        let ghost st = *self;
                        let got = self.get_computable_shape_key(&g);
                        proof {
                            lemma_grown_trans(s0, st, *self);
                        }
                        match got {
                            Some(ck) => {
                                let ghost st2 = *self;
                                let k = self.substitute_position(ck, None);
                                proof {
                                    lemma_grown_trans(s0, st2, *self);
                                    assert(first_selectable(s0, params, this_generic_var@, i as int));
                                    assert forall|j: int| first_selectable(s0, params, this_generic_var@, j) implies j == i by {
                                        if j < i {
                                            assert(!param_selectable(s0, params[j], this_generic_var@));
                                        }
                                        if j > i {
                                            assert(!param_selectable(s0, params[i as int], this_generic_var@));
                                        }
                                    }
                                    let m = self.gsc_summary.computable_shape_table;
                                    assert(m.as_map().dom().contains(g.0) == m.has(g.0));
                                    if !s0.gsc_summary.computable_shape_table.has(g.0) {
                                        assert(m.as_map().dom().contains(g.0));
                                    }
                                    assert(m.has(g.0));
                                    assert(m.as_map()[g.0] == m.at(g.0));
                                    assert(m.at(g.0) == ck);
                                    assert(pos_view(None) == None::<PositionView>);
                                    if !s0.gsc_summary.computable_shape_table.has(g.0) {
                                        lemma_built_from_extend(st2.shapes(), self.shapes(), ck.0 as int, s0.descriptions(),
                                            s0.description_contexts(), g.0 as int);
                                    } else {
                                        assert(st2.gsc_summary.computable_shape_table.as_map()
                                            =~= s0.gsc_summary.computable_shape_table.as_map().insert(g.0, ck));
                                    }
                                }
                                return Some(k);
                            },
                            None => {
                                proof {
                                    assert(!param_selectable(s0, params[i as int], this_generic_var@));
                                }
                            },
                        }
                    },
                }
            } else {
                proof {
                    assert(!param_selectable(s0, params[i as int], this_generic_var@));
                }
            }
            i = i + 1;
        }
        proof {
            assert forall|j: int| !first_selectable(s0, params, this_generic_var@, j) by {
                if 0 <= j < params.len() {
                    assert(!param_selectable(s0, params[j], this_generic_var@));
                }
            }
        }
        None
    }
}


/// The argument given to the generic parameter `name` among the first `n`
/// parameters: the last one of that name decides.
pub open spec fn assigned(params: Seq<GenericParamDef>, args: Seq<ComputableShapeKey>, name: Seq<char>, n: int) -> Option<ComputableShapeKey>
    decreases n,
{
    if n <= 0 {
        None
    } else if params[n - 1].name_of() == name {
        Some(args[n - 1])
    } else {
        assigned(params, args, name, n - 1)
    }
}

/// Where the definition of the shape named `head` is found: the key of its
/// description and of its generic parameters; `None` where one of them is
/// missing.
pub open spec fn definition_keys(s: GrandShapeContentSummaryAtWork, head: RouteView) -> Option<(ShapeDescriptionKey, GenericParamDescriptionKey)> {
    let heads = s.gsc_summary.shape_content_heads;
    let t = s.gsc_summary.kv_tables;
    let hk = ShapeHeadView::Custom(head);
    if !heads.has(hk) || heads.at(hk).0 >= t.shape_content_table@.len() {
        None
    } else {
        let dk = t.shape_content_table@[heads.at(hk).0 as int].description_key;
        if dk.0 >= t.shape_description_table@.len() {
            None
        } else {
            let ck = t.shape_description_table@[dk.0 as int].context_key;
            if ck.0 >= t.shape_description_context_table@.len() {
                None
            } else {
                match t.shape_description_context_table@[ck.0 as int].generic_param_key {
                    None => None,
                    Some(gk) => if gk.0 >= t.generic_param_description_table@.len() {
                        None
                    } else {
                        Some((dk, gk))
                    },
                }
            }
        }
    }
}

/// The shape a use of a definition whose body is shape `ck` stands for:
/// where the body is a generic variable, the argument given to it (`any`
/// where none is); else the body itself.
pub open spec fn simple_substitution(
    t: Seq<ComputableShape>,
    ck: ComputableShapeKey,
    params: Seq<GenericParamDef>,
    args: Seq<ComputableShapeKey>,
    any: ComputableShapeKey,
) -> ComputableShapeKey {
    match t[ck.0 as int].gut {
        ComputableShapeGut::Unresolved(u) => match u.gut {
            UnresolvedPShapeGut::GenericVar(v, _) => match assigned(
                params,
                args,
                v@,
                if params.len() < args.len() { params.len() as int } else { args.len() as int },
            ) {
                Some(a) => a,
                None => any,
            },
            _ => ck,
        },
        _ => ck,
    }
}

impl<'a> GrandShapeContentSummaryAtWork<'a> {
    /// The shape a use of the shape named `head_name` with generic
    /// arguments `args` stands for: the computable shape of the
    /// definition's body (built and recorded if need be), or, where the
    /// body is one of the definition's generic variables, the argument
    /// given to it (`Any` where none is).  `None` where the definition, its
    /// description, context or generic parameters are missing, or its body
    /// cannot be built.
    pub fn substitute_simple_shape(&mut self, head_name: Route, args: &Vec<ComputableShapeKey>) -> (res: Option<ComputableShapeKey>)
        requires
            old(self).gsc_summary.ecs_key_table.has(ElementaryShape::Any),
            old(self).keys_valid(),
            forall|i: int| 0 <= i < args@.len() ==> (#[trigger] args@[i]).0 < old(self).shapes().len(),
        ensures
            final(self).grown_from(*old(self)),
            final(self).keys_valid(),
            final(self).gsc_summary.sub_shape_table_buffer == old(self).gsc_summary.sub_shape_table_buffer,
            simple_substituted(*old(self), *final(self), head_name@, args@, res),
            match res {
                Some(k) => k.0 < final(self).shapes().len(),
                None => true,
            },
    {
        proof {
            lemma_grown_refl(*self);
        }
        let content_key = match self.gsc_summary.shape_content_heads.get(&ShapeContentHeadKey::Custom(head_name)) {
            Some(k) => *k,
            None => {
                return None;
            },
        };
        if content_key.0 >= self.gsc_summary.kv_tables.shape_content_table.len() {
            return None;
        }
        let dk = self.gsc_summary.kv_tables.shape_content_table[content_key.0].description_key;
        if dk.0 >= self.gsc_summary.kv_tables.shape_description_table.len() {
            return None;
        }
        let ctx = self.gsc_summary.kv_tables.shape_description_table[dk.0].context_key;
        if ctx.0 >= self.gsc_summary.kv_tables.shape_description_context_table.len() {
            return None;
        }
        let gk = match self.gsc_summary.kv_tables.shape_description_context_table[ctx.0].generic_param_key {
            Some(k) => k,
            None => {
                return None;
            },
        };
        if gk.0 >= self.gsc_summary.kv_tables.generic_param_description_table.len() {
            return None;
        }
        let ghost s0 = *self;
        let ghost params = self.gsc_summary.kv_tables.generic_param_description_table@[gk.0 as int].params@;
        let any = *self.ask_for_ecs_key(&ElementaryShape::Any);
        let ck = match self.get_computable_shape_key(&dk) {
            Some(k) => k,
            None => {
                return None;
            },
        };
        proof {
            assert forall|j: int| 0 <= j < args@.len() implies (#[trigger] args@[j]).0 < self.shapes().len() by {
                assert(args@[j].0 < s0.shapes().len());
            }
        }
        proof {
            let m = self.gsc_summary.computable_shape_table;
            assert(m.as_map().dom().contains(dk.0) == m.has(dk.0));
            if !s0.gsc_summary.computable_shape_table.has(dk.0) {
                assert(m.as_map().dom().contains(dk.0));
            }
            assert(m.as_map()[dk.0] == m.at(dk.0));
            assert(m.at(dk.0) == ck);
        }
        let var = match &self.gsc_summary.kv_tables.computable_shape_table[ck.0].gut {
            ComputableShapeGut::Unresolved(u) => match &u.gut {
                UnresolvedPShapeGut::GenericVar(v, _) => Some(v.clone()),
                _ => None,
            },
            _ => None,
        };
        match var {
            None => Some(ck),
            Some(v) => {
                let n_params = self.gsc_summary.kv_tables.generic_param_description_table[gk.0].params.len();
                let n = if n_params < args.len() { n_params } else { args.len() };
                let mut found: Option<ComputableShapeKey> = None;
                let mut i: usize = 0;
                while i < n
                    invariant
                        i <= n,
                        n <= params.len(),
                        n <= args@.len(),
                        n_params == params.len(),
                        gk.0 < self.gsc_summary.kv_tables.generic_param_description_table@.len(),
                        params == self.gsc_summary.kv_tables.generic_param_description_table@[gk.0 as int].params@,
                        found == assigned(params, args@, v@, i as int),
                        forall|j: int| 0 <= j < args@.len() ==> (#[trigger] args@[j]).0 < self.shapes().len(),
                        match found {
                            Some(a) => a.0 < self.shapes().len(),
                            None => true,
                        },
                    decreases n - i,
                {
                    let pname = self.gsc_summary.kv_tables.generic_param_description_table[gk.0].params[i].get_name();
                    if pname == v {
                        found = Some(args[i]);
                    }
                    i = i + 1;
                }
                match found {
                    Some(a) => Some(a),
                    None => Some(any),
                }
            },
        }
    }
}

} // verus!
