use vstd::prelude::*;
use crate::ast::{BindDef, DefinitionStmt, Module, OperationDef, ShapeDef};
use crate::module_merge::{
    MergedView, NamePositionGettable, absorb_definition, absorb_definitions, absorb_submodule, absorb_submodules,
    merge_module_entries, merge_module_entry, merge_named_entries, merge_use_entries, merged_from, merged_with,
    put_bind, put_operation, put_shape,
};
use crate::parsed::{ParsedBox, PositionView};
use crate::route::RouteView;

verus! {

/// Whether no name of the module `v` is taken twice: a submodule, a shape,
/// an operation, a bind and a `use` never share a name, and no two `use`
/// statements have the same name.
pub open spec fn names_disjoint(v: MergedView) -> bool {
    &&& forall|n: Seq<char>| #[trigger] v.modules.dom().contains(n) ==> !v.has_non_module_name(n)
    &&& forall|n: Seq<char>| #[trigger] v.shapes.dom().contains(n) ==> !v.operations.dom().contains(n) && !v.binds.dom().contains(n)
        && !v.has_use(n)
    &&& forall|n: Seq<char>| #[trigger] v.operations.dom().contains(n) ==> !v.binds.dom().contains(n) && !v.has_use(n)
    &&& forall|n: Seq<char>| #[trigger] v.binds.dom().contains(n) ==> !v.has_use(n)
    &&& forall|i: int, j: int| 0 <= i < j < v.uses.len() ==> #[trigger] v.uses[i].0 != #[trigger] v.uses[j].0
}

/// Whether `w` keeps every definition of `v`: its submodules (perhaps with
/// another export flag or position), and its shapes, operations, binds,
/// coercions, operator overloads and `use` statements unchanged and first.
pub open spec fn keeps(v: MergedView, w: MergedView) -> bool {
    &&& forall|n: Seq<char>| #[trigger] v.modules.dom().contains(n) ==> w.modules.dom().contains(n)
    &&& forall|n: Seq<char>| #[trigger] v.shapes.dom().contains(n) ==> w.shapes.dom().contains(n) && w.shapes[n] == v.shapes[n]
    &&& forall|n: Seq<char>| #[trigger] v.operations.dom().contains(n) ==> w.operations.dom().contains(n) && w.operations[n]
        == v.operations[n]
    &&& forall|n: Seq<char>| #[trigger] v.binds.dom().contains(n) ==> w.binds.dom().contains(n) && w.binds[n] == v.binds[n]
    &&& w.coerces.take(v.coerces.len() as int) == v.coerces && v.coerces.len() <= w.coerces.len()
    &&& w.operators.take(v.operators.len() as int) == v.operators && v.operators.len() <= w.operators.len()
    &&& w.uses.take(v.uses.len() as int) == v.uses && v.uses.len() <= w.uses.len()
}

proof fn lemma_keeps_refl(v: MergedView)
    ensures
        keeps(v, v),
{
    assert(v.coerces.take(v.coerces.len() as int) =~= v.coerces);
    assert(v.operators.take(v.operators.len() as int) =~= v.operators);
    assert(v.uses.take(v.uses.len() as int) =~= v.uses);
}

proof fn lemma_keeps_trans(a: MergedView, b: MergedView, c: MergedView)
    requires
        keeps(a, b),
        keeps(b, c),
    ensures
        keeps(a, c),
{
    assert(c.coerces.take(a.coerces.len() as int) =~= b.coerces.take(a.coerces.len() as int));
    assert(c.operators.take(a.operators.len() as int) =~= b.operators.take(a.operators.len() as int));
    assert(c.uses.take(a.uses.len() as int) =~= b.uses.take(a.uses.len() as int));
}

/// Adding a `use` whose name is free keeps the names apart.
proof fn lemma_push_use(v: MergedView, name: Seq<char>, pb: ParsedBox<crate::ast::Use>)
    requires
        names_disjoint(v),
        !v.has_name(name),
    ensures
        names_disjoint(MergedView { uses: v.uses.push((name, pb)), ..v }),
        keeps(v, MergedView { uses: v.uses.push((name, pb)), ..v }),
{
    let w = MergedView { uses: v.uses.push((name, pb)), ..v };
    assert forall|n: Seq<char>| #[trigger] w.has_use(n) implies v.has_use(n) || n == name by {
        let i = choose|i: int| 0 <= i < w.uses.len() && #[trigger] w.uses[i].0 == n;
        if i < v.uses.len() {
            assert(v.uses[i].0 == n);
        }
    }
    assert forall|i: int, j: int| 0 <= i < j < w.uses.len() implies #[trigger] w.uses[i].0 != #[trigger] w.uses[j].0 by {
        if j == v.uses.len() {
            assert(w.uses[i] == v.uses[i]);
            if v.uses[i].0 == name {
                assert(v.has_use(name));
            }
        } else {
            assert(w.uses[i] == v.uses[i] && w.uses[j] == v.uses[j]);
        }
    }
    lemma_keeps_refl(v);
    assert(w.uses.take(v.uses.len() as int) =~= v.uses);
}

/// Reading a submodule keeps the names apart and keeps the definitions.
proof fn lemma_absorb_submodule(v: MergedView, route: RouteView, pb: ParsedBox<Module>)
    requires
        names_disjoint(v),
    ensures
        names_disjoint(absorb_submodule(v, route, pb)),
        keeps(v, absorb_submodule(v, route, pb)),
{
    lemma_keeps_refl(v);
    let w = absorb_submodule(v, route, pb);
    assert(w.coerces.take(v.coerces.len() as int) =~= v.coerces);
    assert(w.operators.take(v.operators.len() as int) =~= v.operators);
    assert(w.uses.take(v.uses.len() as int) =~= v.uses);
    assert forall|n: Seq<char>| #[trigger] w.has_use(n) == v.has_use(n) by {
        if w.has_use(n) {
            let i = choose|i: int| 0 <= i < w.uses.len() && #[trigger] w.uses[i].0 == n;
            assert(v.uses[i].0 == n);
        }
        if v.has_use(n) {
            let i = choose|i: int| 0 <= i < v.uses.len() && #[trigger] v.uses[i].0 == n;
            assert(w.uses[i].0 == n);
        }
    }
}

/// Reading a statement other than a submodule keeps the names apart and
/// keeps the definitions.
proof fn lemma_absorb_definition(v: MergedView, route: RouteView, stmt: DefinitionStmt)
    requires
        names_disjoint(v),
    ensures
        names_disjoint(absorb_definition(v, route, stmt)),
        keeps(v, absorb_definition(v, route, stmt)),
{
    lemma_keeps_refl(v);
    let w = absorb_definition(v, route, stmt);
    match stmt {
        DefinitionStmt::Use(pb) => {
            if !v.has_name(pb.name_of()) {
                lemma_push_use(v, pb.name_of(), pb);
            }
        },
        _ => {
            assert(w.coerces.take(v.coerces.len() as int) =~= v.coerces);
            assert(w.operators.take(v.operators.len() as int) =~= v.operators);
            assert(w.uses.take(v.uses.len() as int) =~= v.uses);
            assert forall|n: Seq<char>| #[trigger] w.has_use(n) == v.has_use(n) by {
                if w.has_use(n) {
                    let i = choose|i: int| 0 <= i < w.uses.len() && #[trigger] w.uses[i].0 == n;
                    assert(v.uses[i].0 == n);
                }
                if v.has_use(n) {
                    let i = choose|i: int| 0 <= i < v.uses.len() && #[trigger] v.uses[i].0 == n;
                    assert(w.uses[i].0 == n);
                }
            }
        },
    }
}

proof fn lemma_absorb_submodules(v: MergedView, route: RouteView, subs: Seq<ParsedBox<Module>>)
    requires
        names_disjoint(v),
    ensures
        names_disjoint(absorb_submodules(v, route, subs)),
        keeps(v, absorb_submodules(v, route, subs)),
    decreases subs.len(),
{
    if subs.len() == 0 {
        lemma_keeps_refl(v);
    } else {
        let w = absorb_submodules(v, route, subs.drop_last());
        lemma_absorb_submodules(v, route, subs.drop_last());
        lemma_absorb_submodule(w, route, subs.last());
        lemma_keeps_trans(v, w, absorb_submodule(w, route, subs.last()));
    }
}

proof fn lemma_absorb_definitions(v: MergedView, route: RouteView, stmts: Seq<DefinitionStmt>)
    requires
        names_disjoint(v),
    ensures
        names_disjoint(absorb_definitions(v, route, stmts)),
        keeps(v, absorb_definitions(v, route, stmts)),
    decreases stmts.len(),
{
    if stmts.len() == 0 {
        lemma_keeps_refl(v);
    } else {
        let w = absorb_definitions(v, route, stmts.drop_last());
        lemma_absorb_definitions(v, route, stmts.drop_last());
        lemma_absorb_definition(w, route, stmts.last());
        lemma_keeps_trans(v, w, absorb_definition(w, route, stmts.last()));
    }
}

/// A module block read on its own (see `MergedModule::new` and
/// `merged_from`) never has a name taken twice: a submodule, shape,
/// operation, bind or `use` whose name is taken is left out (and reported).
pub proof fn lemma_merged_from_disjoint(route: RouteView, stmts: Seq<ParsedBox<DefinitionStmt>>)
    ensures
        names_disjoint(merged_from(route, stmts)),
{
    let e = MergedView::empty();
    assert(names_disjoint(e));
    lemma_absorb_submodules(e, route, crate::module_merge::submodules_of(stmts));
    lemma_absorb_definitions(
        absorb_submodules(e, route, crate::module_merge::submodules_of(stmts)),
        route,
        crate::module_merge::non_submodules_of(stmts),
    );
}

/// The uses of `w` are those of `v` where only other fields changed.
proof fn lemma_same_uses(v: MergedView, w: MergedView)
    requires
        w.uses == v.uses,
    ensures
        forall|n: Seq<char>| #[trigger] w.has_use(n) == v.has_use(n),
        w.uses.take(v.uses.len() as int) == v.uses,
{
    assert(w.uses.take(v.uses.len() as int) =~= v.uses);
    assert forall|n: Seq<char>| #[trigger] w.has_use(n) == v.has_use(n) by {
        if w.has_use(n) {
            let i = choose|i: int| 0 <= i < w.uses.len() && #[trigger] w.uses[i].0 == n;
            assert(v.uses[i].0 == n);
        }
        if v.has_use(n) {
            let i = choose|i: int| 0 <= i < v.uses.len() && #[trigger] v.uses[i].0 == n;
            assert(w.uses[i].0 == n);
        }
    }
}

proof fn lemma_merge_module_entry(v: MergedView, route: RouteView, name: Seq<char>, entry: (bool, PositionView))
    requires
        names_disjoint(v),
    ensures
        names_disjoint(merge_module_entry(v, route, name, entry)),
        keeps(v, merge_module_entry(v, route, name, entry)),
{
    let w = merge_module_entry(v, route, name, entry);
    lemma_same_uses(v, w);
    assert(w.coerces.take(v.coerces.len() as int) =~= v.coerces);
    assert(w.operators.take(v.operators.len() as int) =~= v.operators);
}

proof fn lemma_merge_module_entries(v: MergedView, route: RouteView, keys: Seq<Seq<char>>, vals: Seq<(bool, PositionView)>)
    requires
        names_disjoint(v),
    ensures
        names_disjoint(merge_module_entries(v, route, keys, vals)),
        keeps(v, merge_module_entries(v, route, keys, vals)),
    decreases keys.len(),
{
    if keys.len() == 0 || vals.len() == 0 {
        lemma_keeps_refl(v);
    } else {
        let w = merge_module_entries(v, route, keys.drop_last(), vals.drop_last());
        lemma_merge_module_entries(v, route, keys.drop_last(), vals.drop_last());
        lemma_merge_module_entry(w, route, keys.last(), vals.last());
        lemma_keeps_trans(v, w, merge_module_entry(w, route, keys.last(), vals.last()));
    }
}

/// Whether storing by `put` a definition under a free name keeps the names
/// apart and keeps the definitions.
pub open spec fn put_sound<T>(put: spec_fn(MergedView, Seq<char>, ParsedBox<T>) -> MergedView) -> bool {
    forall|w: MergedView, k: Seq<char>, pb: ParsedBox<T>| names_disjoint(w) && !w.has_name(k) ==> names_disjoint(
        #[trigger] put(w, k, pb),
    ) && keeps(w, put(w, k, pb))
}

proof fn lemma_merge_named_entries<T>(
    v: MergedView,
    route: RouteView,
    keys: Seq<Seq<char>>,
    vals: Seq<ParsedBox<T>>,
    put: spec_fn(MergedView, Seq<char>, ParsedBox<T>) -> MergedView,
)
    where ParsedBox<T>: NamePositionGettable
    requires
        names_disjoint(v),
        put_sound(put),
    ensures
        names_disjoint(merge_named_entries(v, route, keys, vals, put)),
        keeps(v, merge_named_entries(v, route, keys, vals, put)),
    decreases keys.len(),
{
    if keys.len() == 0 || vals.len() == 0 {
        lemma_keeps_refl(v);
    } else {
        let w = merge_named_entries(v, route, keys.drop_last(), vals.drop_last(), put);
        lemma_merge_named_entries(v, route, keys.drop_last(), vals.drop_last(), put);
        let x = merge_named_entries(v, route, keys, vals, put);
        if w.has_name(keys.last()) {
            let c = w.conflict(vals.last().name_of(), route, vals.last().name_position_of());
            lemma_same_uses(w, c);
            assert(c.coerces.take(w.coerces.len() as int) =~= w.coerces);
            assert(c.operators.take(w.operators.len() as int) =~= w.operators);
            lemma_keeps_trans(v, w, c);
        } else {
            assert(names_disjoint(put(w, keys.last(), vals.last())));
            lemma_keeps_trans(v, w, put(w, keys.last(), vals.last()));
        }
    }
}

proof fn lemma_put_shape_sound()
    ensures
        put_sound(|w: MergedView, k: Seq<char>, pb: ParsedBox<ShapeDef>| put_shape(w, k, pb)),
{
    assert forall|w: MergedView, k: Seq<char>, pb: ParsedBox<ShapeDef>| names_disjoint(w) && !w.has_name(k) implies names_disjoint(
        put_shape(w, k, pb),
    ) && keeps(w, put_shape(w, k, pb)) by {
        lemma_same_uses(w, put_shape(w, k, pb));
        lemma_keeps_refl(w);
    }
}

proof fn lemma_put_operation_sound()
    ensures
        put_sound(|w: MergedView, k: Seq<char>, pb: ParsedBox<OperationDef>| put_operation(w, k, pb)),
{
    assert forall|w: MergedView, k: Seq<char>, pb: ParsedBox<OperationDef>| names_disjoint(w) && !w.has_name(k) implies names_disjoint(
        put_operation(w, k, pb),
    ) && keeps(w, put_operation(w, k, pb)) by {
        lemma_same_uses(w, put_operation(w, k, pb));
        lemma_keeps_refl(w);
    }
}

proof fn lemma_put_bind_sound()
    ensures
        put_sound(|w: MergedView, k: Seq<char>, pb: ParsedBox<BindDef>| put_bind(w, k, pb)),
{
    assert forall|w: MergedView, k: Seq<char>, pb: ParsedBox<BindDef>| names_disjoint(w) && !w.has_name(k) implies names_disjoint(
        put_bind(w, k, pb),
    ) && keeps(w, put_bind(w, k, pb)) by {
        lemma_same_uses(w, put_bind(w, k, pb));
        lemma_keeps_refl(w);
    }
}

proof fn lemma_merge_use_entries(v: MergedView, route: RouteView, uses: Seq<(Seq<char>, ParsedBox<crate::ast::Use>)>)
    requires
        names_disjoint(v),
    ensures
        names_disjoint(merge_use_entries(v, route, uses)),
        keeps(v, merge_use_entries(v, route, uses)),
    decreases uses.len(),
{
    if uses.len() == 0 {
        lemma_keeps_refl(v);
    } else {
        let w = merge_use_entries(v, route, uses.drop_last());
        lemma_merge_use_entries(v, route, uses.drop_last());
        let (name, pb) = uses.last();
        if w.has_name(name) {
            let c = w.conflict(pb.name_of(), route, pb.name_position_of());
            lemma_same_uses(w, c);
            assert(c.coerces.take(w.coerces.len() as int) =~= w.coerces);
            assert(c.operators.take(w.operators.len() as int) =~= w.operators);
            lemma_keeps_trans(v, w, c);
        } else {
            lemma_push_use(w, name, pb);
            lemma_keeps_trans(v, w, MergedView { uses: w.uses.push((name, pb)), ..w });
        }
    }
}

/// Merging another block into a module (see `MergedModule::merge` and
/// `merged_with`) keeps every definition the module had, appends the
/// coercions, operator overloads and `use` statements after its own, and
/// never takes a name twice where the module did not.
pub proof fn lemma_merged_with_disjoint(v: MergedView, route: RouteView, other: MergedView)
    requires
        names_disjoint(v),
    ensures
        names_disjoint(merged_with(v, route, other)),
        keeps(v, merged_with(v, route, other)),
{
    let v1 = merge_module_entries(v, route, other.module_order, other.module_order.map_values(|k: Seq<char>| other.modules[k]));
    lemma_merge_module_entries(v, route, other.module_order, other.module_order.map_values(|k: Seq<char>| other.modules[k]));
    lemma_put_shape_sound();
    lemma_put_operation_sound();
    lemma_put_bind_sound();
    let ps = |w: MergedView, k: Seq<char>, pb: ParsedBox<ShapeDef>| put_shape(w, k, pb);
    let po = |w: MergedView, k: Seq<char>, pb: ParsedBox<OperationDef>| put_operation(w, k, pb);
    let pbd = |w: MergedView, k: Seq<char>, pb: ParsedBox<BindDef>| put_bind(w, k, pb);
    let sv = other.shape_order.map_values(|k: Seq<char>| other.shapes[k]);
    let ov = other.operation_order.map_values(|k: Seq<char>| other.operations[k]);
    let bv = other.bind_order.map_values(|k: Seq<char>| other.binds[k]);
    let v2 = merge_named_entries(v1, route, other.shape_order, sv, ps);
    lemma_merge_named_entries(v1, route, other.shape_order, sv, ps);
    let v3 = merge_named_entries(v2, route, other.operation_order, ov, po);
    lemma_merge_named_entries(v2, route, other.operation_order, ov, po);
    let v4 = merge_named_entries(v3, route, other.bind_order, bv, pbd);
    lemma_merge_named_entries(v3, route, other.bind_order, bv, pbd);
    let v5 = MergedView { coerces: v4.coerces + other.coerces, operators: v4.operators + other.operators, ..v4 };
    lemma_same_uses(v4, v5);
    assert(v5.coerces.take(v4.coerces.len() as int) =~= v4.coerces);
    assert(v5.operators.take(v4.operators.len() as int) =~= v4.operators);
    lemma_merge_use_entries(v5, route, other.uses);
    lemma_keeps_trans(v, v1, v2);
    lemma_keeps_trans(v, v2, v3);
    lemma_keeps_trans(v, v3, v4);
    lemma_keeps_trans(v, v4, v5);
    lemma_keeps_trans(v, v5, merge_use_entries(v5, route, other.uses));
    assert(merged_with(v, route, other) == merge_use_entries(v5, route, other.uses));
}

/// Merging submodule entries changes only the submodules, their order
/// and the errors; a submodule entry already present keeps its name, and
/// takes on the export flag of each incoming entry of that name in turn,
/// staying exported once either is exported.
proof fn lemma_module_entries_export(
    v: MergedView,
    route: RouteView,
    keys: Seq<Seq<char>>,
    vals: Seq<(bool, PositionView)>,
    n: Seq<char>,
)
    requires
        keys.len() == vals.len(),
        keys.no_duplicates(),
        v.modules.dom().contains(n),
        !v.has_non_module_name(n),
    ensures
        ({
            let w = merge_module_entries(v, route, keys, vals);
            &&& w.shapes == v.shapes
            &&& w.operations == v.operations
            &&& w.binds == v.binds
            &&& w.uses == v.uses
            &&& w.modules.dom().contains(n)
            &&& !keys.contains(n) ==> w.modules[n].0 == v.modules[n].0
            &&& forall|i: int| 0 <= i < keys.len() && #[trigger] keys[i] == n ==> w.modules[n].0 == (v.modules[n].0 || vals[i].0)
        }),
    decreases keys.len(),
{
    if keys.len() == 0 {
    } else {
        let k0 = keys.drop_last();
        let v0 = vals.drop_last();
        assert(k0.no_duplicates()) by {
            assert forall|i: int, j: int| 0 <= i < k0.len() && 0 <= j < k0.len() && i != j implies k0[i] != k0[j] by {
                assert(k0[i] == keys[i] && k0[j] == keys[j]);
            }
        }
        lemma_module_entries_export(v, route, k0, v0, n);
        let w0 = merge_module_entries(v, route, k0, v0);
        assert(w0.modules.dom().contains(n));
        assert(w0.shapes == v.shapes && w0.uses == v.uses);
        let w = merge_module_entries(v, route, keys, vals);
        assert(w == merge_module_entry(w0, route, keys.last(), vals.last()));
        assert(forall|x: Seq<char>| #[trigger] w0.has_use(x) == v.has_use(x));
        let last = keys.len() - 1;
        if keys.last() == n {
            assert(!k0.contains(n)) by {
                if k0.contains(n) {
                    let j = choose|j: int| 0 <= j < k0.len() && k0[j] == n;
                    assert(keys[j] == keys[last]);
                }
            }
            assert forall|i: int| 0 <= i < keys.len() && #[trigger] keys[i] == n implies w.modules[n].0 == (v.modules[n].0 || vals[i].0) by {
                assert(i == last);
            }
            assert(keys.contains(n)) by {
                assert(keys[last] == n);
            }
        } else {
            assert(w.modules[n] == w0.modules[n]);
            assert forall|i: int| 0 <= i < keys.len() && #[trigger] keys[i] == n implies w.modules[n].0 == (v.modules[n].0 || vals[i].0) by {
                assert(i < last);
                assert(0 <= i < k0.len());
                assert(k0[i] == n && v0[i] == vals[i]);
                assert(w0.modules[n].0 == (v.modules[n].0 || v0[i].0));
            }
            if !keys.contains(n) {
                assert(!k0.contains(n)) by {
                    if k0.contains(n) {
                        let j = choose|j: int| 0 <= j < k0.len() && k0[j] == n;
                        assert(keys[j] == n);
                    }
                }
            }
        }
    }
}

/// Merging named definitions leaves the submodules as they are, where
/// storing one does.
proof fn lemma_named_entries_modules<T>(
    v: MergedView,
    route: RouteView,
    keys: Seq<Seq<char>>,
    vals: Seq<ParsedBox<T>>,
    put: spec_fn(MergedView, Seq<char>, ParsedBox<T>) -> MergedView,
)
    where ParsedBox<T>: NamePositionGettable
    requires
        forall|w: MergedView, k: Seq<char>, pb: ParsedBox<T>| #[trigger] put(w, k, pb).modules == w.modules,
    ensures
        merge_named_entries(v, route, keys, vals, put).modules == v.modules,
    decreases keys.len(),
{
    if keys.len() == 0 || vals.len() == 0 {
    } else {
        lemma_named_entries_modules(v, route, keys.drop_last(), vals.drop_last(), put);
    }
}

/// Merging `use` statements leaves the submodules as they are.
proof fn lemma_use_entries_modules(v: MergedView, route: RouteView, uses: Seq<(Seq<char>, ParsedBox<crate::ast::Use>)>)
    ensures
        merge_use_entries(v, route, uses).modules == v.modules,
    decreases uses.len(),
{
    if uses.len() > 0 {
        lemma_use_entries_modules(v, route, uses.drop_last());
    }
}

/// When another block of a module is merged in (see `MergedModule::merge`
/// and `merged_with`), a submodule that both blocks declare is exported
/// exactly when at least one of them exports it.
pub proof fn lemma_merged_with_export(v: MergedView, route: RouteView, other: MergedView, n: Seq<char>)
    requires
        other.module_order.no_duplicates(),
        other.module_order.contains(n),
        v.modules.dom().contains(n),
        !v.has_non_module_name(n),
    ensures
        merged_with(v, route, other).modules.dom().contains(n),
        merged_with(v, route, other).modules[n].0 == (v.modules[n].0 || other.modules[n].0),
{
    let vals = other.module_order.map_values(|k: Seq<char>| other.modules[k]);
    lemma_module_entries_export(v, route, other.module_order, vals, n);
    let v1 = merge_module_entries(v, route, other.module_order, vals);
    let i = choose|i: int| 0 <= i < other.module_order.len() && other.module_order[i] == n;
    assert(vals[i].0 == other.modules[n].0);
    let ps = |w: MergedView, k: Seq<char>, pb: ParsedBox<ShapeDef>| put_shape(w, k, pb);
    let po = |w: MergedView, k: Seq<char>, pb: ParsedBox<OperationDef>| put_operation(w, k, pb);
    let pbd = |w: MergedView, k: Seq<char>, pb: ParsedBox<BindDef>| put_bind(w, k, pb);
    let sv = other.shape_order.map_values(|k: Seq<char>| other.shapes[k]);
    let ov = other.operation_order.map_values(|k: Seq<char>| other.operations[k]);
    let bv = other.bind_order.map_values(|k: Seq<char>| other.binds[k]);
    lemma_named_entries_modules(v1, route, other.shape_order, sv, ps);
    let v2 = merge_named_entries(v1, route, other.shape_order, sv, ps);
    lemma_named_entries_modules(v2, route, other.operation_order, ov, po);
    let v3 = merge_named_entries(v2, route, other.operation_order, ov, po);
    lemma_named_entries_modules(v3, route, other.bind_order, bv, pbd);
    let v4 = merge_named_entries(v3, route, other.bind_order, bv, pbd);
    let v5 = MergedView { coerces: v4.coerces + other.coerces, operators: v4.operators + other.operators, ..v4 };
    lemma_use_entries_modules(v5, route, other.uses);
    assert(merged_with(v, route, other) == merge_use_entries(v5, route, other.uses));
}

} // verus!
