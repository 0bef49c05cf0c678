use vstd::prelude::*;
use crate::ast::{BindDef, Coerce, OperationDef, OperatorOverload, ShapeDef};
use crate::cell::CellSignature;
use crate::content_build::{
    bind_read, coerce_read, lemma_tables_grown_refl, lemma_tables_grown_trans, operation_read, operator_fits, operator_read,
    shape_read,
};
use crate::shape_data::{
    BindContentHeadKey, CoerceContentHeadKey, OperationContentHeadKey, OperatorContentHeadKey, ShapeContentHeadKey,
};
use crate::keyed::KeyedMap;
use crate::module_merge::{MergedModule, MergedModuleTable};
use crate::module_skeleton::ModuleSkeletonTable;
use crate::parsed::ParsedBox;
use crate::route::{Route, RouteView};
use crate::shape_summary::GrandShapeContentSummaryAtWork;

verus! {

/// The merged modules of every cell, by cell name and module route.
pub open spec fn merged_modules(m: &KeyedMap<CellSignature, MergedModuleTable>) -> Map<Seq<char>, Map<RouteView, MergedModule>> {
    Map::new(|c: Seq<char>| m.has(c), |c: Seq<char>| m.at(c).m_modules.as_map())
}

/// The module routes of the skeletons of a cell's name tables.
pub open spec fn skeleton_routes(t: ModuleSkeletonTable) -> Set<RouteView> {
    t.module_skeletons.as_map().dom()
}

/// The merged modules `m` with those of the modules that have skeletons in
/// the name tables `g` taken out: for each cell of `g`, the modules of its
/// skeletons.
pub open spec fn modules_taken(m: Map<Seq<char>, Map<RouteView, MergedModule>>, g: &KeyedMap<CellSignature, ModuleSkeletonTable>) -> Map<Seq<char>, Map<RouteView, MergedModule>> {
    Map::new(
        |c: Seq<char>| m.dom().contains(c),
        |c: Seq<char>| if g.has(c) {
            m[c].remove_keys(skeleton_routes(g.at(c)))
        } else {
            m[c]
        },
    )
}

impl<'a> GrandShapeContentSummaryAtWork<'a> {
    /// Whether every module that has a skeleton has a merged module.
    pub open spec fn merged_present(&self) -> bool {
        let g = self.grand_module_skeleton_table.cell_module_skeleton_table;
        let m = merged_modules(&self.grand_module_merge_table.cell_module_merge_tables);
        forall|c: Seq<char>| #[trigger] g.has(c) ==> m.dom().contains(c) && skeleton_routes(g.at(c)).subset_of(m[c].dom())
    }

    /// Whether every operator overload of every merged module fits where it
    /// is placed.
    pub open spec fn operators_fit(&self) -> bool {
        let m = merged_modules(&self.grand_module_merge_table.cell_module_merge_tables);
        forall|c: Seq<char>, r: RouteView, i: int| #![trigger m[c][r].operator_stmts@[i]]
            m.dom().contains(c) && m[c].dom().contains(r) && 0 <= i < m[c][r].operator_stmts@.len()
                ==> operator_fits(m[c][r].operator_stmts@[i].value.annotation, m[c][r].operator_stmts@[i].value.operator.value)
    }

    /// Reads the definitions of every module that has a skeleton: the
    /// module's merged module is taken out of the merged modules, and its
    /// definitions read, all shapes first, then all operations, binds,
    /// operator overloads and coercions, each kind in the order of the
    /// cells, of the modules within a cell, and of the definitions within a
    /// module (see `new_shape`, `new_operation`, `new_bind`, `new_operator`
    /// and `new_coerce`). A definition for which the tables have no room
    /// left is passed over.
    pub fn new_contents(&mut self)
        requires
            old(self).merged_present(),
            old(self).operators_fit(),
        ensures
            final(self).grand_module_skeleton_table == old(self).grand_module_skeleton_table,
            merged_modules(&final(self).grand_module_merge_table.cell_module_merge_tables) == modules_taken(
                merged_modules(&old(self).grand_module_merge_table.cell_module_merge_tables),
                &old(self).grand_module_skeleton_table.cell_module_skeleton_table,
            ),
            final(self).tables_grown(
                GrandShapeContentSummaryAtWork { grand_module_merge_table: final(self).grand_module_merge_table, ..*old(self) },
            ),
            ({
                let g = old(self).grand_module_skeleton_table.cell_module_skeleton_table;
                let m0 = merged_modules(&old(self).grand_module_merge_table.cell_module_merge_tables);
                exists|s1: Seq<GrandShapeContentSummaryAtWork>, s2: Seq<GrandShapeContentSummaryAtWork>, s3: Seq<
                    GrandShapeContentSummaryAtWork,
                >, s4: Seq<GrandShapeContentSummaryAtWork>, s5: Seq<GrandShapeContentSummaryAtWork>| {
                    &&& #[trigger] shapes_in_turn(s1, all_shapes(g.keys(), g.values(), m0))
                    &&& #[trigger] operations_in_turn(s2, all_operations(g.keys(), g.values(), m0))
                    &&& #[trigger] binds_in_turn(s3, all_binds(g.keys(), g.values(), m0))
                    &&& #[trigger] operators_in_turn(s4, all_operators(g.keys(), g.values(), m0))
                    &&& #[trigger] coerces_in_turn(s5, all_coerces(g.keys(), g.values(), m0))
                    &&& s1[0] == (GrandShapeContentSummaryAtWork {
                        grand_module_merge_table: final(self).grand_module_merge_table,
                        ..*old(self)
                    })
                    &&& s2[0] == s1.last()
                    &&& s3[0] == s2.last()
                    &&& s4[0] == s3.last()
                    &&& s5[0] == s4.last()
                    &&& s5.last() == *final(self)
                }
            }),
    {
        let ghost start = *self;
        let ghost m0 = merged_modules(&self.grand_module_merge_table.cell_module_merge_tables);
        let gmst = self.grand_module_skeleton_table;
        let ghost g = gmst.cell_module_skeleton_table;
        let mut shape_defs: Vec<(Route, ParsedBox<ShapeDef>)> = Vec::new();
        let mut operation_defs: Vec<(Route, ParsedBox<OperationDef>)> = Vec::new();
        let mut bind_defs: Vec<(Route, ParsedBox<BindDef>)> = Vec::new();
        let mut operator_defs: Vec<(Route, ParsedBox<OperatorOverload>)> = Vec::new();
        let mut coerce_defs: Vec<(Route, ParsedBox<Coerce>)> = Vec::new();
        proof {
            use_type_invariant(&gmst.cell_module_skeleton_table);
            g.lemma_lengths();
        }
        let mut ci: usize = 0;
        while ci < gmst.cell_module_skeleton_table.len()
            invariant
                ci <= g.size(),
                g == gmst.cell_module_skeleton_table,
                gmst == start.grand_module_skeleton_table,
                g.keys().no_duplicates(),
                g.keys().len() == g.size(),
                g.values().len() == g.size(),
                *self == (GrandShapeContentSummaryAtWork { grand_module_merge_table: self.grand_module_merge_table, ..start }),
                m0 == merged_modules(&start.grand_module_merge_table.cell_module_merge_tables),
                start.operators_fit(),
                start.merged_present(),
                merged_modules(&self.grand_module_merge_table.cell_module_merge_tables).dom() == m0.dom(),
                forall|c: Seq<char>| #[trigger] m0.dom().contains(c) ==> merged_modules(&self.grand_module_merge_table.cell_module_merge_tables)[c]
                    == if g.keys().take(ci as int).contains(c) {
                    m0[c].remove_keys(skeleton_routes(g.at(c)))
                } else {
                    m0[c]
                },
                forall|i: int| 0 <= i < operator_defs@.len() ==> operator_fits(
                    (#[trigger] operator_defs@[i]).1.value.annotation,
                    operator_defs@[i].1.value.operator.value,
                ),
                item_views(shape_defs@) == all_shapes(g.keys().take(ci as int), g.values().take(ci as int), m0),
                item_views(operation_defs@) == all_operations(g.keys().take(ci as int), g.values().take(ci as int), m0),
                item_views(bind_defs@) == all_binds(g.keys().take(ci as int), g.values().take(ci as int), m0),
                item_views(operator_defs@) == all_operators(g.keys().take(ci as int), g.values().take(ci as int), m0),
                item_views(coerce_defs@) == all_coerces(g.keys().take(ci as int), g.values().take(ci as int), m0),
            decreases g.size() - ci,
        {
            let cell = gmst.cell_module_skeleton_table.key_at(ci);
            let mst = gmst.cell_module_skeleton_table.value_at(ci);
            let ghost mm_before = merged_modules(&self.grand_module_merge_table.cell_module_merge_tables);
            proof {
                g.lemma_index(cell@, ci as int);
                assert(!g.keys().take(ci as int).contains(cell@)) by {
                    if g.keys().take(ci as int).contains(cell@) {
                        let j = choose|j: int| 0 <= j < ci && #[trigger] g.keys().take(ci as int)[j] == cell@;
                        assert(g.keys()[j] == g.keys()[ci as int]);
                    }
                }
                assert(m0.dom().contains(cell@));
                assert(mm_before[cell@] == m0[cell@]);
            }
            let ghost mb = self.grand_module_merge_table.cell_module_merge_tables.as_map();
            let ghost tval: MergedModuleTable;
            match self.grand_module_merge_table.cell_module_merge_tables.remove(cell) {
                Some(table) => {
                    let mut table = table;
                    let ghost orig = table.m_modules.as_map();
                    let ghost sk = mst.module_skeletons;
                    proof {
                        use_type_invariant(&mst.module_skeletons);
                        sk.lemma_lengths();
                        assert(orig == mm_before[cell@]);
                        assert(orig == m0[cell@]);
                        assert(sk.keys().take(0) =~= Seq::<RouteView>::empty());
                        assert(orig.remove_keys(sk.keys().take(0).to_set()) =~= orig);
                    }
                    let ghost pre_shape = item_views(shape_defs@);
                    let ghost pre_operation = item_views(operation_defs@);
                    let ghost pre_bind = item_views(bind_defs@);
                    let ghost pre_operator = item_views(operator_defs@);
                    let ghost pre_coerce = item_views(coerce_defs@);
                    proof {
                        assert(pre_shape + cell_shapes(sk.keys().take(0), orig) =~= pre_shape);
                        assert(pre_operation + cell_operations(sk.keys().take(0), orig) =~= pre_operation);
                        assert(pre_bind + cell_binds(sk.keys().take(0), orig) =~= pre_bind);
                        assert(pre_operator + cell_operators(sk.keys().take(0), orig) =~= pre_operator);
                        assert(pre_coerce + cell_coerces(sk.keys().take(0), orig) =~= pre_coerce);
                    }
                    let mut mi: usize = 0;
                    while mi < mst.module_skeletons.len()
                        invariant
                            mi <= sk.size(),
                            sk == mst.module_skeletons,
                            sk.keys().no_duplicates(),
                            sk.keys().len() == sk.size(),
                            orig == m0[cell@],
                            m0 == merged_modules(&start.grand_module_merge_table.cell_module_merge_tables),
                            start.operators_fit(),
                            m0.dom().contains(cell@),
                            g.at(cell@) == *mst,
                            skeleton_routes(*mst).subset_of(orig.dom()),
                            table.m_modules.as_map() == orig.remove_keys(sk.keys().take(mi as int).to_set()),
                            item_views(shape_defs@) == pre_shape + cell_shapes(sk.keys().take(mi as int), orig),
                            item_views(operation_defs@) == pre_operation + cell_operations(sk.keys().take(mi as int), orig),
                            item_views(bind_defs@) == pre_bind + cell_binds(sk.keys().take(mi as int), orig),
                            item_views(operator_defs@) == pre_operator + cell_operators(sk.keys().take(mi as int), orig),
                            item_views(coerce_defs@) == pre_coerce + cell_coerces(sk.keys().take(mi as int), orig),
                            forall|i: int| 0 <= i < operator_defs@.len() ==> operator_fits(
                                (#[trigger] operator_defs@[i]).1.value.annotation,
                                operator_defs@[i].1.value.operator.value,
                            ),
                        decreases sk.size() - mi,
                    {
                        let module_route = mst.module_skeletons.key_at(mi);
                        let ghost before = table.m_modules.as_map();
                        let ghost mr = module_route@;
                        proof {
                            assert(sk.keys().take(mi + 1) =~= sk.keys().take(mi as int).push(mr));
                            sk.keys().take(mi as int).lemma_push_to_set_commute(mr);
                            sk.lemma_index(mr, mi as int);
                            assert(skeleton_routes(*mst).contains(mr));
                            assert(sk.keys().take(mi + 1).drop_last() =~= sk.keys().take(mi as int));
                            assert(sk.keys().take(mi + 1).last() == mr);
                            assert(orig.dom().contains(mr));
                            assert(!sk.keys().take(mi as int).contains(mr)) by {
                                if sk.keys().take(mi as int).contains(mr) {
                                    let j = choose|j: int| 0 <= j < mi && #[trigger] sk.keys().take(mi as int)[j] == mr;
                                    assert(sk.keys()[j] == sk.keys()[mi as int]);
                                }
                            }
                        }
                        match table.m_modules.remove(module_route) {
                            Some(merged) => {
                                proof {
                                    assert(!sk.keys().take(mi as int).to_set().contains(mr));
                                    assert(before[mr] == orig[mr]);
                                    assert(merged == orig[mr]);
                                    assert(m0[cell@][mr] == merged);
                                }
                                let MergedModule {
                                    module_def_names: _,
                                    shape_def_stmts,
                                    operation_def_stmts,
                                    bind_def_stmts,
                                    coerce_stmts,
                                    operator_stmts,
                                    use_stmts: _,
                                    errors: _,
                                } = merged;
                                let ghost vals_shape = shape_def_stmts.values();
                                let ghost vals_operation = operation_def_stmts.values();
                                let ghost vals_bind = bind_def_stmts.values();
                                let ghost vals_operator = operator_stmts@;
                                let ghost vals_coerce = coerce_stmts@;
                                let ghost acc_shape = shape_defs@;
                                let ghost acc_operation = operation_defs@;
                                let ghost acc_bind = bind_defs@;
                                let ghost acc_operator = operator_defs@;
                                let ghost acc_coerce = coerce_defs@;
                                proof {
                                    shape_def_stmts.lemma_lengths();
                                    operation_def_stmts.lemma_lengths();
                                    bind_def_stmts.lemma_lengths();
                                }
                                let shapes = shape_def_stmts.into_entries();
                                let mut shapes = shapes;
                                take_defs(&mut shape_defs, &mut shapes, module_route);
                                let mut operations = operation_def_stmts.into_entries();
                                take_defs(&mut operation_defs, &mut operations, module_route);
                                let mut binds = bind_def_stmts.into_entries();
                                take_defs(&mut bind_defs, &mut binds, module_route);
                                let ghost ops = operator_stmts@;
                                let mut operators = operator_stmts;
                                let ghost n0 = operator_defs@.len();
                                let ghost od0 = operator_defs@;
                                take_statements(&mut operator_defs, &mut operators, module_route);
                                proof {
                                    assert forall|i: int| 0 <= i < operator_defs@.len() implies operator_fits(
                                        (#[trigger] operator_defs@[i]).1.value.annotation,
                                        operator_defs@[i].1.value.operator.value,
                                    ) by {
                                        if i < n0 {
                                            assert(operator_defs@.take(n0 as int)[i] == od0[i]);
                                        }
                                        if i >= n0 {
                                            let k = i - n0;
                                            assert(operator_defs@[n0 + k].1 == ops[k]);
                                            assert(operator_defs@[i].1 == ops[k]);
                                            assert(m0[cell@][mr].operator_stmts@[k] == ops[k]);
                                        }
                                    }
                                }
                                let mut coerces = coerce_stmts;
                                take_statements(&mut coerce_defs, &mut coerces, module_route);
                                proof {
                                    lemma_appended(acc_shape, shape_defs@, vals_shape, mr);
                                    lemma_appended(acc_operation, operation_defs@, vals_operation, mr);
                                    lemma_appended(acc_bind, bind_defs@, vals_bind, mr);
                                    lemma_appended(acc_operator, operator_defs@, vals_operator, mr);
                                    lemma_appended(acc_coerce, coerce_defs@, vals_coerce, mr);
                                    let tk = sk.keys().take(mi + 1);
                                    let tp = sk.keys().take(mi as int);
                                    assert(vals_shape == orig[mr].shape_def_stmts.values());
                                    assert(cell_shapes(tk, orig) == cell_shapes(tp, orig) + tagged(mr, vals_shape));
                                    assert(item_views(shape_defs@) =~= pre_shape + cell_shapes(tk, orig));
                                    assert(cell_operations(tk, orig) == cell_operations(tp, orig) + tagged(mr, vals_operation));
                                    assert(item_views(operation_defs@) =~= pre_operation + cell_operations(tk, orig));
                                    assert(cell_binds(tk, orig) == cell_binds(tp, orig) + tagged(mr, vals_bind));
                                    assert(item_views(bind_defs@) =~= pre_bind + cell_binds(tk, orig));
                                    assert(cell_operators(tk, orig) == cell_operators(tp, orig) + tagged(mr, vals_operator));
                                    assert(item_views(operator_defs@) =~= pre_operator + cell_operators(tk, orig));
                                    assert(cell_coerces(tk, orig) == cell_coerces(tp, orig) + tagged(mr, vals_coerce));
                                    assert(item_views(coerce_defs@) =~= pre_coerce + cell_coerces(tk, orig));
                                }
                            },
                            None => {
                                proof {
                                    assert(before.dom().contains(mr));
                                }
                            },
                        }
                        proof {
                            assert(table.m_modules.as_map() =~= orig.remove_keys(sk.keys().take(mi + 1).to_set()));
                        }
                        mi = mi + 1;
                    }
                    proof {
                        assert(sk.keys().take(mi as int) =~= sk.keys());
                        assert(sk.keys().to_set() =~= skeleton_routes(*mst));
                        let ck = g.keys().take(ci + 1);
                        let cv = g.values().take(ci + 1);
                        assert(ck.drop_last() =~= g.keys().take(ci as int));
                        assert(cv.drop_last() =~= g.values().take(ci as int));
                        assert(ck.last() == cell@);
                        assert(cv.last() == *mst);
                    }
                    proof {
                        tval = table;
                    }
                    self.grand_module_merge_table.cell_module_merge_tables.insert(cell.duplicate(), table);
                    proof {
                        assert(self.grand_module_merge_table.cell_module_merge_tables.as_map() == mb.remove(cell@).insert(cell@, tval));
                        assert(tval.m_modules.as_map() == m0[cell@].remove_keys(skeleton_routes(g.at(cell@))));
                    }
                },
                None => {
                    proof {
                        assert(!mb.dom().contains(cell@));
                        assert(false);
                    }
                },
            }
            proof {
                let mm = merged_modules(&self.grand_module_merge_table.cell_module_merge_tables);
                assert(g.keys().take(ci + 1) =~= g.keys().take(ci as int).push(cell@));
                assert(g.at(cell@) == *mst);
                assert forall|c: Seq<char>| #[trigger] mm.dom().contains(c) == m0.dom().contains(c) by {}
                assert(mm.dom() =~= m0.dom());
                assert forall|c: Seq<char>| #[trigger] m0.dom().contains(c) implies mm[c] == if g.keys().take(ci + 1).contains(c) {
                    m0[c].remove_keys(skeleton_routes(g.at(c)))
                } else {
                    m0[c]
                } by {
                    let now = self.grand_module_merge_table.cell_module_merge_tables;
                    assert(now.as_map()[c] == now.at(c));
                    assert(mb.dom().contains(c));
                    if c != cell@ {
                        assert(now.as_map()[c] == mb[c]);
                        assert(mm[c] == mm_before[c]);
                        assert(g.keys().take(ci + 1).contains(c) == g.keys().take(ci as int).contains(c)) by {
                            if g.keys().take(ci + 1).contains(c) {
                                let j = choose|j: int| 0 <= j < ci + 1 && #[trigger] g.keys().take(ci + 1)[j] == c;
                                assert(g.keys().take(ci as int)[j] == c);
                            }
                            if g.keys().take(ci as int).contains(c) {
                                let j = choose|j: int| 0 <= j < ci && #[trigger] g.keys().take(ci as int)[j] == c;
                                assert(g.keys().take(ci + 1)[j] == c);
                            }
                        }
                    } else {
                        assert(now.as_map()[c] == tval);
                        assert(g.keys().take(ci + 1)[ci as int] == c);
                        assert(!g.keys().take(ci as int).contains(c)) by {
                            if g.keys().take(ci as int).contains(c) {
                                let j = choose|j: int| 0 <= j < ci && #[trigger] g.keys().take(ci as int)[j] == c;
                                assert(g.keys()[j] == g.keys()[ci as int]);
                            }
                        }
                    }
                }
            }
            ci = ci + 1;
        }
        proof {
            let mm = merged_modules(&self.grand_module_merge_table.cell_module_merge_tables);
            assert(g.keys().take(ci as int) =~= g.keys());
            assert forall|c: Seq<char>| #[trigger] m0.dom().contains(c) implies g.keys().contains(c) == g.has(c) by {}
            assert(mm =~= modules_taken(m0, &g));
            assert(g.values().take(ci as int) =~= g.values());
        }
        self.read_collected(shape_defs, operation_defs, bind_defs, operator_defs, coerce_defs);
    }
}

/// The values `vals`, each with the route `mr`.
pub open spec fn tagged<T>(mr: RouteView, vals: Seq<T>) -> Seq<(RouteView, T)> {
    vals.map_values(|d: T| (mr, d))
}

/// The shape definitions of the merged modules `mods` of the modules at
/// `routes`, in order, each with its module's route.
pub open spec fn cell_shapes(routes: Seq<RouteView>, mods: Map<RouteView, MergedModule>) -> Seq<(RouteView, ParsedBox<ShapeDef>)>
    decreases routes.len(),
{
    if routes.len() == 0 {
        Seq::empty()
    } else {
        cell_shapes(routes.drop_last(), mods) + if mods.dom().contains(routes.last()) {
            tagged(routes.last(), mods[routes.last()].shape_def_stmts.values())
        } else {
            Seq::empty()
        }
    }
}

/// The shape definitions of the modules with skeletons in the name tables
/// `tables` of the cells `cells`, taken from the merged modules `m0`, in
/// the order of the cells and of the modules within a cell.
pub open spec fn all_shapes(cells: Seq<Seq<char>>, tables: Seq<ModuleSkeletonTable>, m0: Map<Seq<char>, Map<RouteView, MergedModule>>) -> Seq<(RouteView, ParsedBox<ShapeDef>)>
    decreases cells.len(),
{
    if cells.len() == 0 || tables.len() == 0 {
        Seq::empty()
    } else {
        all_shapes(cells.drop_last(), tables.drop_last(), m0) + if m0.dom().contains(cells.last()) {
            cell_shapes(tables.last().module_skeletons.keys(), m0[cells.last()])
        } else {
            Seq::empty()
        }
    }
}

/// The operation definitions of the merged modules `mods` of the modules at
/// `routes`, in order, each with its module's route.
pub open spec fn cell_operations(routes: Seq<RouteView>, mods: Map<RouteView, MergedModule>) -> Seq<(RouteView, ParsedBox<OperationDef>)>
    decreases routes.len(),
{
    if routes.len() == 0 {
        Seq::empty()
    } else {
        cell_operations(routes.drop_last(), mods) + if mods.dom().contains(routes.last()) {
            tagged(routes.last(), mods[routes.last()].operation_def_stmts.values())
        } else {
            Seq::empty()
        }
    }
}

/// The operation definitions of the modules with skeletons in the name tables
/// `tables` of the cells `cells`, taken from the merged modules `m0`, in
/// the order of the cells and of the modules within a cell.
pub open spec fn all_operations(cells: Seq<Seq<char>>, tables: Seq<ModuleSkeletonTable>, m0: Map<Seq<char>, Map<RouteView, MergedModule>>) -> Seq<(RouteView, ParsedBox<OperationDef>)>
    decreases cells.len(),
{
    if cells.len() == 0 || tables.len() == 0 {
        Seq::empty()
    } else {
        all_operations(cells.drop_last(), tables.drop_last(), m0) + if m0.dom().contains(cells.last()) {
            cell_operations(tables.last().module_skeletons.keys(), m0[cells.last()])
        } else {
            Seq::empty()
        }
    }
}

/// The bind definitions of the merged modules `mods` of the modules at
/// `routes`, in order, each with its module's route.
pub open spec fn cell_binds(routes: Seq<RouteView>, mods: Map<RouteView, MergedModule>) -> Seq<(RouteView, ParsedBox<BindDef>)>
    decreases routes.len(),
{
    if routes.len() == 0 {
        Seq::empty()
    } else {
        cell_binds(routes.drop_last(), mods) + if mods.dom().contains(routes.last()) {
            tagged(routes.last(), mods[routes.last()].bind_def_stmts.values())
        } else {
            Seq::empty()
        }
    }
}

/// The bind definitions of the modules with skeletons in the name tables
/// `tables` of the cells `cells`, taken from the merged modules `m0`, in
/// the order of the cells and of the modules within a cell.
pub open spec fn all_binds(cells: Seq<Seq<char>>, tables: Seq<ModuleSkeletonTable>, m0: Map<Seq<char>, Map<RouteView, MergedModule>>) -> Seq<(RouteView, ParsedBox<BindDef>)>
    decreases cells.len(),
{
    if cells.len() == 0 || tables.len() == 0 {
        Seq::empty()
    } else {
        all_binds(cells.drop_last(), tables.drop_last(), m0) + if m0.dom().contains(cells.last()) {
            cell_binds(tables.last().module_skeletons.keys(), m0[cells.last()])
        } else {
            Seq::empty()
        }
    }
}

/// The operator definitions of the merged modules `mods` of the modules at
/// `routes`, in order, each with its module's route.
pub open spec fn cell_operators(routes: Seq<RouteView>, mods: Map<RouteView, MergedModule>) -> Seq<(RouteView, ParsedBox<OperatorOverload>)>
    decreases routes.len(),
{
    if routes.len() == 0 {
        Seq::empty()
    } else {
        cell_operators(routes.drop_last(), mods) + if mods.dom().contains(routes.last()) {
            tagged(routes.last(), mods[routes.last()].operator_stmts@)
        } else {
            Seq::empty()
        }
    }
}

/// The operator definitions of the modules with skeletons in the name tables
/// `tables` of the cells `cells`, taken from the merged modules `m0`, in
/// the order of the cells and of the modules within a cell.
pub open spec fn all_operators(cells: Seq<Seq<char>>, tables: Seq<ModuleSkeletonTable>, m0: Map<Seq<char>, Map<RouteView, MergedModule>>) -> Seq<(RouteView, ParsedBox<OperatorOverload>)>
    decreases cells.len(),
{
    if cells.len() == 0 || tables.len() == 0 {
        Seq::empty()
    } else {
        all_operators(cells.drop_last(), tables.drop_last(), m0) + if m0.dom().contains(cells.last()) {
            cell_operators(tables.last().module_skeletons.keys(), m0[cells.last()])
        } else {
            Seq::empty()
        }
    }
}

/// The coerce definitions of the merged modules `mods` of the modules at
/// `routes`, in order, each with its module's route.
pub open spec fn cell_coerces(routes: Seq<RouteView>, mods: Map<RouteView, MergedModule>) -> Seq<(RouteView, ParsedBox<Coerce>)>
    decreases routes.len(),
{
    if routes.len() == 0 {
        Seq::empty()
    } else {
        cell_coerces(routes.drop_last(), mods) + if mods.dom().contains(routes.last()) {
            tagged(routes.last(), mods[routes.last()].coerce_stmts@)
        } else {
            Seq::empty()
        }
    }
}

/// The coerce definitions of the modules with skeletons in the name tables
/// `tables` of the cells `cells`, taken from the merged modules `m0`, in
/// the order of the cells and of the modules within a cell.
pub open spec fn all_coerces(cells: Seq<Seq<char>>, tables: Seq<ModuleSkeletonTable>, m0: Map<Seq<char>, Map<RouteView, MergedModule>>) -> Seq<(RouteView, ParsedBox<Coerce>)>
    decreases cells.len(),
{
    if cells.len() == 0 || tables.len() == 0 {
        Seq::empty()
    } else {
        all_coerces(cells.drop_last(), tables.drop_last(), m0) + if m0.dom().contains(cells.last()) {
            cell_coerces(tables.last().module_skeletons.keys(), m0[cells.last()])
        } else {
            Seq::empty()
        }
    }
}

/// Moving `vals` with route `mr` to the end of `old` gives `new`.
proof fn lemma_appended<T>(old: Seq<(Route, ParsedBox<T>)>, new: Seq<(Route, ParsedBox<T>)>, vals: Seq<ParsedBox<T>>, mr: RouteView)
    requires
        new.len() == old.len() + vals.len(),
        new.take(old.len() as int) == old,
        forall|i: int| 0 <= i < vals.len() ==> (#[trigger] new[old.len() + i]).1 == vals[i] && new[old.len() + i].0@ == mr,
    ensures
        item_views(new) == item_views(old) + tagged(mr, vals),
{
    assert forall|i: int| 0 <= i < new.len() implies item_views(new)[i] == (item_views(old) + tagged(mr, vals))[i] by {
        if i < old.len() {
            assert(new.take(old.len() as int)[i] == old[i]);
        } else {
            let k = i - old.len();
            assert(new[old.len() + k].1 == vals[k]);
        }
    }
    assert(item_views(new) =~= item_views(old) + tagged(mr, vals));
}

/// Moves the named definitions `defs` of module `module_route` to the end
/// of `acc`, each with the module's route.
fn take_defs<T>(acc: &mut Vec<(Route, ParsedBox<T>)>, defs: &mut Vec<(String, ParsedBox<T>)>, module_route: &Route)
    ensures
        final(acc)@.len() == old(acc)@.len() + old(defs)@.len(),
        final(acc)@.take(old(acc)@.len() as int) == old(acc)@,
        forall|i: int| 0 <= i < old(defs)@.len() ==> (#[trigger] final(acc)@[old(acc)@.len() + i]).1 == old(defs)@[i].1
            && final(acc)@[old(acc)@.len() + i].0@ == module_route@,
{
    let ghost a0 = acc@;
    let ghost d0 = defs@;
    let n = defs.len();
    let mut i: usize = 0;
    while defs.len() > 0
        invariant
            i <= d0.len(),
            d0.len() == n,
            defs@ == d0.skip(i as int),
            defs@.len() == d0.len() - i,
            acc@.len() == a0.len() + i,
            acc@.take(a0.len() as int) == a0,
            forall|j: int| 0 <= j < i ==> (#[trigger] acc@[a0.len() + j]).1 == d0[j].1 && acc@[a0.len() + j].0@ == module_route@,
        decreases defs@.len(),
    {
        let (_, d) = defs.remove(0);
        acc.push((module_route.duplicate(), d));
        proof {
            assert(acc@.take(a0.len() as int) =~= a0);
            assert(defs@ =~= d0.skip(i + 1));
        }
        i = i + 1;
    }
}

/// Moves the statements `stmts` of module `module_route` to the end of
/// `acc`, each with the module's route.
fn take_statements<T>(acc: &mut Vec<(Route, ParsedBox<T>)>, stmts: &mut Vec<ParsedBox<T>>, module_route: &Route)
    ensures
        final(acc)@.len() == old(acc)@.len() + old(stmts)@.len(),
        final(acc)@.take(old(acc)@.len() as int) == old(acc)@,
        forall|i: int| 0 <= i < old(stmts)@.len() ==> (#[trigger] final(acc)@[old(acc)@.len() + i]).1 == old(stmts)@[i]
            && final(acc)@[old(acc)@.len() + i].0@ == module_route@,
{
    let ghost a0 = acc@;
    let ghost d0 = stmts@;
    let n = stmts.len();
    let mut i: usize = 0;
    while stmts.len() > 0
        invariant
            i <= d0.len(),
            d0.len() == n,
            stmts@ == d0.skip(i as int),
            stmts@.len() == d0.len() - i,
            acc@.len() == a0.len() + i,
            acc@.take(a0.len() as int) == a0,
            forall|j: int| 0 <= j < i ==> (#[trigger] acc@[a0.len() + j]).1 == d0[j] && acc@[a0.len() + j].0@ == module_route@,
        decreases stmts@.len(),
    {
        let d = stmts.remove(0);
        acc.push((module_route.duplicate(), d));
        proof {
            assert(acc@.take(a0.len() as int) =~= a0);
            assert(stmts@ =~= d0.skip(i + 1));
        }
        i = i + 1;
    }
}

/// The views of collected definitions: each module route by its view.
pub open spec fn item_views<T>(v: Seq<(Route, T)>) -> Seq<(RouteView, T)> {
    v.map_values(|x: (Route, T)| (x.0@, x.1))
}

/// One shape definition `it` read from `a` to `b`: as `new_shape` says where
/// the tables have room for it, passed over otherwise.
pub open spec fn shape_step(a: GrandShapeContentSummaryAtWork, b: GrandShapeContentSummaryAtWork, it: (RouteView, ParsedBox<ShapeDef>)) -> bool {
    if a.shape_room(it.1.value) {
        exists|res: Option<ShapeContentHeadKey>| #[trigger] shape_read(a, b, it.0, it.1.value, res)
    } else {
        b == a
    }
}

/// The shape definitions `items` read one after the other, through the
/// summaries `ss`.
pub open spec fn shapes_in_turn(ss: Seq<GrandShapeContentSummaryAtWork>, items: Seq<(RouteView, ParsedBox<ShapeDef>)>) -> bool {
    &&& ss.len() == items.len() + 1
    &&& forall|i: int| 0 <= i < items.len() ==> #[trigger] shape_step(ss[i], ss[i + 1], items[i])
}

/// One operation definition `it` read from `a` to `b`: as `new_operation` says where
/// the tables have room for it, passed over otherwise.
pub open spec fn operation_step(a: GrandShapeContentSummaryAtWork, b: GrandShapeContentSummaryAtWork, it: (RouteView, ParsedBox<OperationDef>)) -> bool {
    if a.definition_room(it.1.value.template_def, it.1.value.function_def) {
        exists|res: Option<OperationContentHeadKey>| #[trigger] operation_read(a, b, it.0, it.1.value, res)
    } else {
        b == a
    }
}

/// The operation definitions `items` read one after the other, through the
/// summaries `ss`.
pub open spec fn operations_in_turn(ss: Seq<GrandShapeContentSummaryAtWork>, items: Seq<(RouteView, ParsedBox<OperationDef>)>) -> bool {
    &&& ss.len() == items.len() + 1
    &&& forall|i: int| 0 <= i < items.len() ==> #[trigger] operation_step(ss[i], ss[i + 1], items[i])
}

/// One bind definition `it` read from `a` to `b`: as `new_bind` says where
/// the tables have room for it, passed over otherwise.
pub open spec fn bind_step(a: GrandShapeContentSummaryAtWork, b: GrandShapeContentSummaryAtWork, it: (RouteView, ParsedBox<BindDef>)) -> bool {
    if a.definition_room(it.1.value.template_def, it.1.value.function_def) {
        exists|res: Option<BindContentHeadKey>| #[trigger] bind_read(a, b, it.0, it.1.value, res)
    } else {
        b == a
    }
}

/// The bind definitions `items` read one after the other, through the
/// summaries `ss`.
pub open spec fn binds_in_turn(ss: Seq<GrandShapeContentSummaryAtWork>, items: Seq<(RouteView, ParsedBox<BindDef>)>) -> bool {
    &&& ss.len() == items.len() + 1
    &&& forall|i: int| 0 <= i < items.len() ==> #[trigger] bind_step(ss[i], ss[i + 1], items[i])
}

/// One operator definition `it` read from `a` to `b`: as `new_operator` says where
/// the tables have room for it, passed over otherwise.
pub open spec fn operator_step(a: GrandShapeContentSummaryAtWork, b: GrandShapeContentSummaryAtWork, it: (RouteView, ParsedBox<OperatorOverload>)) -> bool {
    if a.definition_room(it.1.value.template_def, it.1.value.function_def) {
        exists|res: Option<OperatorContentHeadKey>| #[trigger] operator_read(a, b, it.0, it.1.value, res)
    } else {
        b == a
    }
}

/// The operator definitions `items` read one after the other, through the
/// summaries `ss`.
pub open spec fn operators_in_turn(ss: Seq<GrandShapeContentSummaryAtWork>, items: Seq<(RouteView, ParsedBox<OperatorOverload>)>) -> bool {
    &&& ss.len() == items.len() + 1
    &&& forall|i: int| 0 <= i < items.len() ==> #[trigger] operator_step(ss[i], ss[i + 1], items[i])
}

/// One coerce definition `it` read from `a` to `b`: as `new_coerce` says where
/// the tables have room for it, passed over otherwise.
pub open spec fn coerce_step(a: GrandShapeContentSummaryAtWork, b: GrandShapeContentSummaryAtWork, it: (RouteView, ParsedBox<Coerce>)) -> bool {
    if a.definition_room(it.1.value.template_def, it.1.value.function_def) {
        exists|res: Option<CoerceContentHeadKey>| #[trigger] coerce_read(a, b, it.0, it.1.value, res)
    } else {
        b == a
    }
}

/// The coerce definitions `items` read one after the other, through the
/// summaries `ss`.
pub open spec fn coerces_in_turn(ss: Seq<GrandShapeContentSummaryAtWork>, items: Seq<(RouteView, ParsedBox<Coerce>)>) -> bool {
    &&& ss.len() == items.len() + 1
    &&& forall|i: int| 0 <= i < items.len() ==> #[trigger] coerce_step(ss[i], ss[i + 1], items[i])
}

impl<'a> GrandShapeContentSummaryAtWork<'a> {
    /// Reads the collected definitions, each kind in turn, each in order;
    /// one for which the tables have no room left is passed over.
    fn read_collected(
        &mut self,
        shapes: Vec<(Route, ParsedBox<ShapeDef>)>,
        operations: Vec<(Route, ParsedBox<OperationDef>)>,
        binds: Vec<(Route, ParsedBox<BindDef>)>,
        operators: Vec<(Route, ParsedBox<OperatorOverload>)>,
        coerces: Vec<(Route, ParsedBox<Coerce>)>,
    )
        requires
            forall|i: int| 0 <= i < operators@.len() ==> operator_fits(
                (#[trigger] operators@[i]).1.value.annotation,
                operators@[i].1.value.operator.value,
            ),
        ensures
            final(self).tables_grown(*old(self)),
            exists|s1: Seq<GrandShapeContentSummaryAtWork>, s2: Seq<GrandShapeContentSummaryAtWork>, s3: Seq<
                GrandShapeContentSummaryAtWork,
            >, s4: Seq<GrandShapeContentSummaryAtWork>, s5: Seq<GrandShapeContentSummaryAtWork>| {
                &&& #[trigger] shapes_in_turn(s1, item_views(shapes@))
                &&& #[trigger] operations_in_turn(s2, item_views(operations@))
                &&& #[trigger] binds_in_turn(s3, item_views(binds@))
                &&& #[trigger] operators_in_turn(s4, item_views(operators@))
                &&& #[trigger] coerces_in_turn(s5, item_views(coerces@))
                &&& s1[0] == *old(self)
                &&& s2[0] == s1.last()
                &&& s3[0] == s2.last()
                &&& s4[0] == s3.last()
                &&& s5[0] == s4.last()
                &&& s5.last() == *final(self)
            },
    {
        let ghost start = *self;
        proof {
            lemma_tables_grown_refl(start);
        }
        let ghost items_shape = item_views(shapes@);
        let ghost mut tr_shape: Seq<GrandShapeContentSummaryAtWork> = seq![*self];
        let ghost from_shape = *self;
        let mut shapes = shapes;
        let ghost mut j_shape: int = 0;
        proof {
            assert(item_views(shapes@) =~= items_shape.skip(0));
        }
        while shapes.len() > 0
            invariant
                self.tables_grown(start),
                0 <= j_shape <= items_shape.len(),
                item_views(shapes@) == items_shape.skip(j_shape),
                tr_shape.len() == j_shape + 1,
                tr_shape[0] == from_shape,
                tr_shape.last() == *self,
                forall|i: int| 0 <= i < j_shape ==> #[trigger] shape_step(tr_shape[i], tr_shape[i + 1], items_shape[i]),
            decreases shapes@.len(),
        {
            let ghost vs0 = shapes@;
            let (module_route, def) = shapes.remove(0);
            let ghost before = *self;
            proof {
                assert(vs0.len() > 0);
                assert(item_views(vs0).len() == vs0.len());
                assert(j_shape < items_shape.len());
                assert(items_shape.skip(j_shape)[0] == items_shape[j_shape]);
                assert(item_views(vs0)[0] == items_shape.skip(j_shape)[0]);
                assert(shapes@ =~= vs0.skip(1));
                assert(item_views(vs0.skip(1)) =~= item_views(vs0).skip(1));
                assert(items_shape.skip(j_shape).skip(1) =~= items_shape.skip(j_shape + 1));
                assert(item_views(shapes@) =~= items_shape.skip(j_shape + 1));
            }
            if self.has_shape_room(&def.value) {
                let res = self.new_shape(module_route, def);
                proof {
                    lemma_tables_grown_trans(start, before, *self);
                    assert(shape_read(before, *self, items_shape[j_shape].0, items_shape[j_shape].1.value, res));
                }
            }
            proof {
                let t2 = tr_shape.push(*self);
                assert(shape_step(before, *self, items_shape[j_shape]));
                assert forall|i: int| 0 <= i < j_shape + 1 implies #[trigger] shape_step(t2[i], t2[i + 1], items_shape[i]) by {
                    if i < j_shape {
                        assert(t2[i] == tr_shape[i] && t2[i + 1] == tr_shape[i + 1]);
                    }
                }
                tr_shape = t2;
                j_shape = j_shape + 1;
            }
        }
        proof {
            assert(j_shape == items_shape.len());
            assert(shapes_in_turn(tr_shape, items_shape));
        }
        let ghost items_operation = item_views(operations@);
        let ghost mut tr_operation: Seq<GrandShapeContentSummaryAtWork> = seq![*self];
        let ghost from_operation = *self;
        let mut operations = operations;
        let ghost mut j_operation: int = 0;
        proof {
            assert(item_views(operations@) =~= items_operation.skip(0));
        }
        while operations.len() > 0
            invariant
                self.tables_grown(start),
                0 <= j_operation <= items_operation.len(),
                item_views(operations@) == items_operation.skip(j_operation),
                tr_operation.len() == j_operation + 1,
                tr_operation[0] == from_operation,
                tr_operation.last() == *self,
                forall|i: int| 0 <= i < j_operation ==> #[trigger] operation_step(tr_operation[i], tr_operation[i + 1], items_operation[i]),
            decreases operations@.len(),
        {
            let ghost vs0 = operations@;
            let (module_route, def) = operations.remove(0);
            let ghost before = *self;
            proof {
                assert(vs0.len() > 0);
                assert(item_views(vs0).len() == vs0.len());
                assert(j_operation < items_operation.len());
                assert(items_operation.skip(j_operation)[0] == items_operation[j_operation]);
                assert(item_views(vs0)[0] == items_operation.skip(j_operation)[0]);
                assert(operations@ =~= vs0.skip(1));
                assert(item_views(vs0.skip(1)) =~= item_views(vs0).skip(1));
                assert(items_operation.skip(j_operation).skip(1) =~= items_operation.skip(j_operation + 1));
                assert(item_views(operations@) =~= items_operation.skip(j_operation + 1));
            }
            if self.has_definition_room(&def.value.template_def, &def.value.function_def) {
                let res = self.new_operation(module_route, def);
                proof {
                    lemma_tables_grown_trans(start, before, *self);
                    assert(operation_read(before, *self, items_operation[j_operation].0, items_operation[j_operation].1.value, res));
                }
            }
            proof {
                let t2 = tr_operation.push(*self);
                assert(operation_step(before, *self, items_operation[j_operation]));
                assert forall|i: int| 0 <= i < j_operation + 1 implies #[trigger] operation_step(t2[i], t2[i + 1], items_operation[i]) by {
                    if i < j_operation {
                        assert(t2[i] == tr_operation[i] && t2[i + 1] == tr_operation[i + 1]);
                    }
                }
                tr_operation = t2;
                j_operation = j_operation + 1;
            }
        }
        proof {
            assert(j_operation == items_operation.len());
            assert(operations_in_turn(tr_operation, items_operation));
        }
        let ghost items_bind = item_views(binds@);
        let ghost mut tr_bind: Seq<GrandShapeContentSummaryAtWork> = seq![*self];
        let ghost from_bind = *self;
        let mut binds = binds;
        let ghost mut j_bind: int = 0;
        proof {
            assert(item_views(binds@) =~= items_bind.skip(0));
        }
        while binds.len() > 0
            invariant
                self.tables_grown(start),
                0 <= j_bind <= items_bind.len(),
                item_views(binds@) == items_bind.skip(j_bind),
                tr_bind.len() == j_bind + 1,
                tr_bind[0] == from_bind,
                tr_bind.last() == *self,
                forall|i: int| 0 <= i < j_bind ==> #[trigger] bind_step(tr_bind[i], tr_bind[i + 1], items_bind[i]),
            decreases binds@.len(),
        {
            let ghost vs0 = binds@;
            let (module_route, def) = binds.remove(0);
            let ghost before = *self;
            proof {
                assert(vs0.len() > 0);
                assert(item_views(vs0).len() == vs0.len());
                assert(j_bind < items_bind.len());
                assert(items_bind.skip(j_bind)[0] == items_bind[j_bind]);
                assert(item_views(vs0)[0] == items_bind.skip(j_bind)[0]);
                assert(binds@ =~= vs0.skip(1));
                assert(item_views(vs0.skip(1)) =~= item_views(vs0).skip(1));
                assert(items_bind.skip(j_bind).skip(1) =~= items_bind.skip(j_bind + 1));
                assert(item_views(binds@) =~= items_bind.skip(j_bind + 1));
            }
            if self.has_definition_room(&def.value.template_def, &def.value.function_def) {
                let res = self.new_bind(module_route, def);
                proof {
                    lemma_tables_grown_trans(start, before, *self);
                    assert(bind_read(before, *self, items_bind[j_bind].0, items_bind[j_bind].1.value, res));
                }
            }
            proof {
                let t2 = tr_bind.push(*self);
                assert(bind_step(before, *self, items_bind[j_bind]));
                assert forall|i: int| 0 <= i < j_bind + 1 implies #[trigger] bind_step(t2[i], t2[i + 1], items_bind[i]) by {
                    if i < j_bind {
                        assert(t2[i] == tr_bind[i] && t2[i + 1] == tr_bind[i + 1]);
                    }
                }
                tr_bind = t2;
                j_bind = j_bind + 1;
            }
        }
        proof {
            assert(j_bind == items_bind.len());
            assert(binds_in_turn(tr_bind, items_bind));
        }
        let ghost items_operator = item_views(operators@);
        let ghost mut tr_operator: Seq<GrandShapeContentSummaryAtWork> = seq![*self];
        let ghost from_operator = *self;
        let mut operators = operators;
        let ghost mut j_operator: int = 0;
        proof {
            assert(item_views(operators@) =~= items_operator.skip(0));
        }
        while operators.len() > 0
            invariant
                self.tables_grown(start),
                0 <= j_operator <= items_operator.len(),
                item_views(operators@) == items_operator.skip(j_operator),
                tr_operator.len() == j_operator + 1,
                tr_operator[0] == from_operator,
                tr_operator.last() == *self,
                forall|i: int| 0 <= i < j_operator ==> #[trigger] operator_step(tr_operator[i], tr_operator[i + 1], items_operator[i]),
                forall|i: int| 0 <= i < operators@.len() ==> operator_fits(
                    (#[trigger] operators@[i]).1.value.annotation,
                    operators@[i].1.value.operator.value,
                ),
            decreases operators@.len(),
        {
            let ghost vs0 = operators@;
            let (module_route, def) = operators.remove(0);
            let ghost before = *self;
            proof {
                assert(vs0.len() > 0);
                assert(item_views(vs0).len() == vs0.len());
                assert(j_operator < items_operator.len());
                assert(items_operator.skip(j_operator)[0] == items_operator[j_operator]);
                assert(item_views(vs0)[0] == items_operator.skip(j_operator)[0]);
                assert(operators@ =~= vs0.skip(1));
                assert(item_views(vs0.skip(1)) =~= item_views(vs0).skip(1));
                assert(items_operator.skip(j_operator).skip(1) =~= items_operator.skip(j_operator + 1));
                assert(item_views(operators@) =~= items_operator.skip(j_operator + 1));
            }
            proof {
                assert forall|i: int| 0 <= i < operators@.len() implies operator_fits(
                    (#[trigger] operators@[i]).1.value.annotation,
                    operators@[i].1.value.operator.value,
                ) by {
                    assert(operators@[i] == vs0[i + 1]);
                }
            }
            if self.has_definition_room(&def.value.template_def, &def.value.function_def) {
                let res = self.new_operator(module_route, def);
                proof {
                    lemma_tables_grown_trans(start, before, *self);
                    assert(operator_read(before, *self, items_operator[j_operator].0, items_operator[j_operator].1.value, res));
                }
            }
            proof {
                let t2 = tr_operator.push(*self);
                assert(operator_step(before, *self, items_operator[j_operator]));
                assert forall|i: int| 0 <= i < j_operator + 1 implies #[trigger] operator_step(t2[i], t2[i + 1], items_operator[i]) by {
                    if i < j_operator {
                        assert(t2[i] == tr_operator[i] && t2[i + 1] == tr_operator[i + 1]);
                    }
                }
                tr_operator = t2;
                j_operator = j_operator + 1;
            }
        }
        proof {
            assert(j_operator == items_operator.len());
            assert(operators_in_turn(tr_operator, items_operator));
        }
        let ghost items_coerce = item_views(coerces@);
        let ghost mut tr_coerce: Seq<GrandShapeContentSummaryAtWork> = seq![*self];
        let ghost from_coerce = *self;
        let mut coerces = coerces;
        let ghost mut j_coerce: int = 0;
        proof {
            assert(item_views(coerces@) =~= items_coerce.skip(0));
        }
        while coerces.len() > 0
            invariant
                self.tables_grown(start),
                0 <= j_coerce <= items_coerce.len(),
                item_views(coerces@) == items_coerce.skip(j_coerce),
                tr_coerce.len() == j_coerce + 1,
                tr_coerce[0] == from_coerce,
                tr_coerce.last() == *self,
                forall|i: int| 0 <= i < j_coerce ==> #[trigger] coerce_step(tr_coerce[i], tr_coerce[i + 1], items_coerce[i]),
            decreases coerces@.len(),
        {
            let ghost vs0 = coerces@;
            let (module_route, def) = coerces.remove(0);
            let ghost before = *self;
            proof {
                assert(vs0.len() > 0);
                assert(item_views(vs0).len() == vs0.len());
                assert(j_coerce < items_coerce.len());
                assert(items_coerce.skip(j_coerce)[0] == items_coerce[j_coerce]);
                assert(item_views(vs0)[0] == items_coerce.skip(j_coerce)[0]);
                assert(coerces@ =~= vs0.skip(1));
                assert(item_views(vs0.skip(1)) =~= item_views(vs0).skip(1));
                assert(items_coerce.skip(j_coerce).skip(1) =~= items_coerce.skip(j_coerce + 1));
                assert(item_views(coerces@) =~= items_coerce.skip(j_coerce + 1));
            }
            if self.has_definition_room(&def.value.template_def, &def.value.function_def) {
                let res = self.new_coerce(module_route, def);
                proof {
                    lemma_tables_grown_trans(start, before, *self);
                    assert(coerce_read(before, *self, items_coerce[j_coerce].0, items_coerce[j_coerce].1.value, res));
                }
            }
            proof {
                let t2 = tr_coerce.push(*self);
                assert(coerce_step(before, *self, items_coerce[j_coerce]));
                assert forall|i: int| 0 <= i < j_coerce + 1 implies #[trigger] coerce_step(t2[i], t2[i + 1], items_coerce[i]) by {
                    if i < j_coerce {
                        assert(t2[i] == tr_coerce[i] && t2[i + 1] == tr_coerce[i + 1]);
                    }
                }
                tr_coerce = t2;
                j_coerce = j_coerce + 1;
            }
        }
        proof {
            assert(j_coerce == items_coerce.len());
            assert(coerces_in_turn(tr_coerce, items_coerce));
        }
    }
}

} // verus!
