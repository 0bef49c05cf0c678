use vstd::prelude::*;
use crate::ast::{BindDef, Module, OperationDef, ShapeDef, Use};
use crate::cell::CellSignature;
use crate::def_signature::{SignatureView, SkeletonDefSignature, SkeletonDefSignatureKind};
use crate::keyed::{KeyedMap, KeyedSet};
use crate::name_errors::{GlobalNameAliasResolutionError, GlobalNameAliasResolutionErrorKind, GlobalNameAliasResolutionErrors, NameErrorView};
use crate::parsed::{ParsedBox, PositionView, RoutedIdentifier};
use crate::module_merge::{MergedModule, MergedModuleTable, MergedView, module_table};
use crate::route::{CanonicalRoute, Route, RouteView};
use crate::route_root_table::{RouteRootTable, RouteRootTableView};

verus! {

/// The routes stored in a map of aliases, by the alias's own route.
pub open spec fn alias_map(m: &KeyedMap<Route, Route>) -> Map<RouteView, RouteView> {
    Map::new(|k: RouteView| m.has(k), |k: RouteView| m.at(k)@)
}

/// What a module offers to name resolution: the roots its routes may start
/// with, and its definitions split into submodules, concrete definitions
/// and aliases, each exported or internal.
#[derive(Debug)]
pub struct ModuleSkeleton {
    pub this_route: CanonicalRoute,
    pub route_root_table: RouteRootTable,
    pub exported_submodules: KeyedSet<CanonicalRoute>,
    pub internal_submodules: KeyedSet<CanonicalRoute>,
    pub exported_concrete_definitions: KeyedSet<CanonicalRoute>,
    pub internal_concrete_definitions: KeyedSet<CanonicalRoute>,
    pub exported_alias_definitions: KeyedMap<CanonicalRoute, Route>,
    pub internal_alias_definitions: KeyedMap<CanonicalRoute, Route>,
}

/// The abstract value of a module skeleton.
pub struct SkeletonView {
    pub this_route: RouteView,
    pub route_root_table: RouteRootTableView,
    pub exported_submodules: Set<RouteView>,
    pub internal_submodules: Set<RouteView>,
    pub exported_concrete_definitions: Set<RouteView>,
    pub internal_concrete_definitions: Set<RouteView>,
    pub exported_alias_definitions: Map<RouteView, RouteView>,
    pub internal_alias_definitions: Map<RouteView, RouteView>,
}

impl View for ModuleSkeleton {
    type V = SkeletonView;

    open spec fn view(&self) -> SkeletonView {
        SkeletonView {
            this_route: self.this_route@,
            route_root_table: self.route_root_table@,
            exported_submodules: self.exported_submodules.as_set(),
            internal_submodules: self.internal_submodules.as_set(),
            exported_concrete_definitions: self.exported_concrete_definitions.as_set(),
            internal_concrete_definitions: self.internal_concrete_definitions.as_set(),
            exported_alias_definitions: alias_map(&self.exported_alias_definitions),
            internal_alias_definitions: alias_map(&self.internal_alias_definitions),
        }
    }
}

impl SkeletonView {
    /// Whether `route` is a submodule or a concrete definition of the module.
    pub open spec fn has_concrete(self, route: RouteView) -> bool {
        ||| self.internal_submodules.contains(route)
        ||| self.exported_submodules.contains(route)
        ||| self.exported_concrete_definitions.contains(route)
        ||| self.internal_concrete_definitions.contains(route)
    }

    /// The skeleton with a concrete definition (or, for `Module`, a
    /// submodule) at `def` recorded as exported or internal.
    pub open spec fn with_concrete(self, def: RouteView, is_export: bool, kind: SkeletonDefSignatureKind) -> SkeletonView {
        if kind == SkeletonDefSignatureKind::Module {
            if is_export {
                SkeletonView { exported_submodules: self.exported_submodules.insert(def), ..self }
            } else {
                SkeletonView { internal_submodules: self.internal_submodules.insert(def), ..self }
            }
        } else {
            if is_export {
                SkeletonView { exported_concrete_definitions: self.exported_concrete_definitions.insert(def), ..self }
            } else {
                SkeletonView { internal_concrete_definitions: self.internal_concrete_definitions.insert(def), ..self }
            }
        }
    }

    /// The skeleton with an alias at `def` naming `alias` recorded as
    /// exported or internal.
    pub open spec fn with_alias(self, def: RouteView, alias: RouteView, is_export: bool) -> SkeletonView {
        if is_export {
            SkeletonView { exported_alias_definitions: self.exported_alias_definitions.insert(def, alias), ..self }
        } else {
            SkeletonView { internal_alias_definitions: self.internal_alias_definitions.insert(def, alias), ..self }
        }
    }
}

/// A set of routes with one more member.
fn insert_route(s: &mut KeyedSet<CanonicalRoute>, r: CanonicalRoute)
    ensures
        final(s).as_set() == old(s).as_set().insert(r@),
{
    s.insert(r);
}

/// A map of aliases with one more entry.
fn insert_alias(m: &mut KeyedMap<CanonicalRoute, Route>, def: CanonicalRoute, alias: Route)
    ensures
        alias_map(final(m)) == alias_map(old(m)).insert(def@, alias@),
{
    let ghost d = def@;
    let ghost a = alias@;
    m.insert(def, alias);
    proof {
        assert forall|k: RouteView| #[trigger] m.has(k) == (old(m).has(k) || k == d) by {
            assert(m.as_map().dom().contains(k) == m.has(k));
            assert(old(m).as_map().dom().contains(k) == old(m).has(k));
        }
        assert forall|k: RouteView| m.has(k) implies #[trigger] m.at(k)@ == if k == d { a } else { old(m).at(k)@ } by {
            assert(m.as_map()[k] == m.at(k));
            if k != d {
                assert(old(m).as_map()[k] == old(m).at(k));
            }
        }
        assert(alias_map(m) =~= alias_map(old(m)).insert(d, a));
    }
}

impl ModuleSkeleton {
    /// Whether `route` is a submodule or a concrete definition of the module.
    pub fn contains_concrete(&self, route: &CanonicalRoute) -> (res: bool)
        ensures
            res == self@.has_concrete(route@),
    {
        self.internal_submodules.contains(route) || self.exported_submodules.contains(route)
            || self.exported_concrete_definitions.contains(route)
            || self.internal_concrete_definitions.contains(route)
    }

    /// The skeleton of the module at `module_route`, with nothing in it yet.
    pub fn new(module_route: CanonicalRoute) -> (res: Self)
        ensures
            res@.this_route == module_route@,
            res@.route_root_table.common == Map::<Seq<char>, RouteView>::empty(),
            res@.route_root_table.keyword == Map::<Seq<char>, RouteView>::empty(),
            res@.route_root_table.relative == Map::<Seq<char>, RouteView>::empty(),
            res@.exported_submodules == Set::<RouteView>::empty(),
            res@.internal_submodules == Set::<RouteView>::empty(),
            res@.exported_concrete_definitions == Set::<RouteView>::empty(),
            res@.internal_concrete_definitions == Set::<RouteView>::empty(),
            res@.exported_alias_definitions == Map::<RouteView, RouteView>::empty(),
            res@.internal_alias_definitions == Map::<RouteView, RouteView>::empty(),
    {
        let r = Self {
            this_route: module_route,
            route_root_table: RouteRootTable::new(),
            exported_submodules: KeyedSet::new(),
            internal_submodules: KeyedSet::new(),
            exported_concrete_definitions: KeyedSet::new(),
            internal_concrete_definitions: KeyedSet::new(),
            exported_alias_definitions: KeyedMap::new(),
            internal_alias_definitions: KeyedMap::new(),
        };
        proof {
            assert(r.exported_submodules.as_set() =~= Set::<RouteView>::empty());
            assert(r.internal_submodules.as_set() =~= Set::<RouteView>::empty());
            assert(r.exported_concrete_definitions.as_set() =~= Set::<RouteView>::empty());
            assert(r.internal_concrete_definitions.as_set() =~= Set::<RouteView>::empty());
            assert(alias_map(&r.exported_alias_definitions) =~= Map::<RouteView, RouteView>::empty());
            assert(alias_map(&r.internal_alias_definitions) =~= Map::<RouteView, RouteView>::empty());
        }
        r
    }

    /// Records a concrete definition at `def_route`, exported or internal.
    fn add_concrete(&mut self, def_route: CanonicalRoute, is_export: bool, kind: SkeletonDefSignatureKind)
        ensures
            final(self)@ == old(self)@.with_concrete(def_route@, is_export, kind),
    {
        if kind == SkeletonDefSignatureKind::Module {
            if is_export {
                insert_route(&mut self.exported_submodules, def_route);
            } else {
                insert_route(&mut self.internal_submodules, def_route);
            }
        } else {
            if is_export {
                insert_route(&mut self.exported_concrete_definitions, def_route);
            } else {
                insert_route(&mut self.internal_concrete_definitions, def_route);
            }
        }
    }

    /// Records the shape definition at `def_route`.
    pub fn add_from_pb_shape(&mut self, def_route: CanonicalRoute, pb_shape: &ParsedBox<ShapeDef>)
        ensures
            final(self)@ == old(self)@.with_concrete(def_route@, pb_shape.value.is_export, SkeletonDefSignatureKind::Shape),
    {
        self.add_concrete(def_route, pb_shape.value.is_export, SkeletonDefSignatureKind::Shape);
    }

    /// Records the operation definition at `def_route`.
    pub fn add_from_pb_operation(&mut self, def_route: CanonicalRoute, pb_operation: &ParsedBox<OperationDef>)
        ensures
            final(self)@ == old(self)@.with_concrete(def_route@, pb_operation.value.is_export, SkeletonDefSignatureKind::Operation),
    {
        self.add_concrete(def_route, pb_operation.value.is_export, SkeletonDefSignatureKind::Operation);
    }

    /// Records the bind definition at `def_route`.
    pub fn add_from_pb_bind(&mut self, def_route: CanonicalRoute, pb_bind: &ParsedBox<BindDef>)
        ensures
            final(self)@ == old(self)@.with_concrete(def_route@, pb_bind.value.is_export, SkeletonDefSignatureKind::BindDef),
    {
        self.add_concrete(def_route, pb_bind.value.is_export, SkeletonDefSignatureKind::BindDef);
    }

    /// Records the submodule at `def_route`.
    pub fn add_from_pb_module(&mut self, def_route: CanonicalRoute, pb_module_is_export: &ParsedBox<bool>)
        ensures
            final(self)@ == old(self)@.with_concrete(def_route@, pb_module_is_export.value, SkeletonDefSignatureKind::Module),
    {
        self.add_concrete(def_route, pb_module_is_export.value, SkeletonDefSignatureKind::Module);
    }

    /// Records the alias at `def_route` naming `alias_route`.
    pub fn add_from_pb_use(&mut self, def_route: CanonicalRoute, alias_route: Route, pb_use_is_export: &ParsedBox<Use>)
        ensures
            final(self)@ == old(self)@.with_alias(def_route@, alias_route@, pb_use_is_export.value.is_export),
    {
        if pb_use_is_export.value.is_export {
            insert_alias(&mut self.exported_alias_definitions, def_route, alias_route);
        } else {
            insert_alias(&mut self.internal_alias_definitions, def_route, alias_route);
        }
    }
}

/// The relative keyword for the cell a module belongs to.
pub open spec fn this_cell_keyword() -> Seq<char> {
    "cell"@
}

/// The relative keyword for the module itself.
pub open spec fn this_module_keyword() -> Seq<char> {
    "this"@
}

/// The relative keyword for the module one level up.
pub open spec fn parent_module_keyword() -> Seq<char> {
    "super"@
}

/// The name of the relative keyword for the cell a module belongs to.
pub fn this_cell_keyword_name() -> (res: String)
    ensures
        res@ == this_cell_keyword(),
{
    String::from_str("cell")
}

/// The name of the relative keyword for the module itself.
pub fn this_module_keyword_name() -> (res: String)
    ensures
        res@ == this_module_keyword(),
{
    String::from_str("this")
}

/// The name of the relative keyword for the module one level up.
pub fn parent_module_keyword_name() -> (res: String)
    ensures
        res@ == parent_module_keyword(),
{
    String::from_str("super")
}

/// The outcome of turning the route of a `use` into a canonical route.
#[derive(Debug)]
pub enum RidToModuleRouteResult {
    Found(Route),
    UnknownRootRouteFraction,
    SingleCellOrRelativeKeywordRouteNotAllowed,
}

/// The abstract value of such an outcome.
pub enum RidResultView {
    Found(RouteView),
    UnknownRootRouteFraction,
    SingleCellOrRelativeKeywordRouteNotAllowed,
}

impl View for RidToModuleRouteResult {
    type V = RidResultView;

    open spec fn view(&self) -> RidResultView {
        match self {
            RidToModuleRouteResult::Found(r) => RidResultView::Found(r@),
            RidToModuleRouteResult::UnknownRootRouteFraction => RidResultView::UnknownRootRouteFraction,
            RidToModuleRouteResult::SingleCellOrRelativeKeywordRouteNotAllowed => RidResultView::SingleCellOrRelativeKeywordRouteNotAllowed,
        }
    }
}

/// The canonical route the names `names` stand for under the roots `rrt`:
/// the first name must be a root; a cell name or keyword alone is refused;
/// otherwise the root's route (a cell root before a relative one) is
/// extended by the remaining names.
pub open spec fn rid_route(rrt: RouteRootTableView, names: Seq<Seq<char>>) -> RidResultView {
    let root = names[0];
    if !(rrt.common.dom().contains(root) || rrt.keyword.dom().contains(root) || rrt.relative.dom().contains(root)) {
        RidResultView::UnknownRootRouteFraction
    } else if names.len() == 1 && (rrt.common.dom().contains(root) || rrt.keyword.dom().contains(root)) {
        RidResultView::SingleCellOrRelativeKeywordRouteNotAllowed
    } else {
        RidResultView::Found(
            if rrt.common.dom().contains(root) {
                rrt.common[root]
            } else {
                rrt.relative[root]
            }.extend(names.skip(1)),
        )
    }
}

/// The name tables of one cell: the skeleton of each module and the
/// signature of each defined name, by route, and the errors found.
#[derive(Debug)]
pub struct ModuleSkeletonTable {
    pub root: CanonicalRoute,
    pub module_skeletons: KeyedMap<CanonicalRoute, ModuleSkeleton>,
    pub def_signatures: KeyedMap<CanonicalRoute, SkeletonDefSignature>,
    pub errors: GlobalNameAliasResolutionErrors,
}

/// The skeletons of a table, by route.
pub open spec fn skeleton_map(m: &KeyedMap<CanonicalRoute, ModuleSkeleton>) -> Map<RouteView, SkeletonView> {
    Map::new(|k: RouteView| m.has(k), |k: RouteView| m.at(k)@)
}

/// The signatures of a table, by route.
pub open spec fn signature_map(m: &KeyedMap<CanonicalRoute, SkeletonDefSignature>) -> Map<RouteView, SignatureView> {
    Map::new(|k: RouteView| m.has(k), |k: RouteView| m.at(k)@)
}

/// The abstract value of a cell's name tables.
pub struct SkeletonTableView {
    pub root: RouteView,
    pub module_skeletons: Map<RouteView, SkeletonView>,
    pub def_signatures: Map<RouteView, SignatureView>,
    pub errors: Seq<NameErrorView>,
}

impl View for ModuleSkeletonTable {
    type V = SkeletonTableView;

    open spec fn view(&self) -> SkeletonTableView {
        SkeletonTableView {
            root: self.root@,
            module_skeletons: skeleton_map(&self.module_skeletons),
            def_signatures: signature_map(&self.def_signatures),
            errors: self.errors@.map_values(|e: GlobalNameAliasResolutionError| e@),
        }
    }
}

/// A signature map with one more entry.
pub fn insert_signature(m: &mut KeyedMap<CanonicalRoute, SkeletonDefSignature>, k: CanonicalRoute, v: SkeletonDefSignature)
    ensures
        signature_map(final(m)) == signature_map(old(m)).insert(k@, v@),
{
    let ghost kv = k@;
    let ghost vv = v@;
    m.insert(k, v);
    proof {
        assert forall|x: RouteView| #[trigger] m.has(x) == (old(m).has(x) || x == kv) by {
            assert(m.as_map().dom().contains(x) == m.has(x));
            assert(old(m).as_map().dom().contains(x) == old(m).has(x));
        }
        assert forall|x: RouteView| m.has(x) implies #[trigger] m.at(x)@ == if x == kv { vv } else { old(m).at(x)@ } by {
            assert(m.as_map()[x] == m.at(x));
            if x != kv {
                assert(old(m).as_map()[x] == old(m).at(x));
            }
        }
        assert(signature_map(m) =~= signature_map(old(m)).insert(kv, vv));
    }
}

/// A skeleton map with one more entry.
fn insert_skeleton(m: &mut KeyedMap<CanonicalRoute, ModuleSkeleton>, k: CanonicalRoute, v: ModuleSkeleton)
    ensures
        skeleton_map(final(m)) == skeleton_map(old(m)).insert(k@, v@),
{
    let ghost kv = k@;
    let ghost vv = v@;
    m.insert(k, v);
    proof {
        assert forall|x: RouteView| #[trigger] m.has(x) == (old(m).has(x) || x == kv) by {
            assert(m.as_map().dom().contains(x) == m.has(x));
            assert(old(m).as_map().dom().contains(x) == old(m).has(x));
        }
        assert forall|x: RouteView| m.has(x) implies #[trigger] m.at(x)@ == if x == kv { vv } else { old(m).at(x)@ } by {
            assert(m.as_map()[x] == m.at(x));
            if x != kv {
                assert(old(m).as_map()[x] == old(m).at(x));
            }
        }
        assert(skeleton_map(m) =~= skeleton_map(old(m)).insert(kv, vv));
    }
}

impl ModuleSkeletonTable {
    /// The canonical route the `use` route `pb_rid` stands for under the
    /// roots `rrt`, as `rid_route` says.
    pub fn rid_to_module_route(&self, rrt: &RouteRootTable, pb_rid: &ParsedBox<RoutedIdentifier>) -> (res: RidToModuleRouteResult)
        ensures
            res@ == rid_route(rrt@, pb_rid.value.names()),
    {
        proof {
            use_type_invariant(rrt);
        }
        let route_fractions = pb_rid.value.to_vec_string();
        let root_name = &route_fractions[0];
        if !rrt.contains(root_name) {
            RidToModuleRouteResult::UnknownRootRouteFraction
        } else if route_fractions.len() == 1 && rrt.is_common_or_keyword_root(root_name) {
            RidToModuleRouteResult::SingleCellOrRelativeKeywordRouteNotAllowed
        } else {
            let route_root = rrt.get_root_route(root_name).unwrap();
            let rest = crate::strings::slice_strings(&route_fractions, 1, route_fractions.len());
            proof {
                assert(route_fractions.deep_view().subrange(1, route_fractions.len() as int)
                    =~= route_fractions.deep_view().skip(1));
            }
            RidToModuleRouteResult::Found(CanonicalRoute::chain(route_root, rest))
        }
    }

    /// The same, under the roots of the module at `parent_module_route`,
    /// which must have a skeleton in the table.
    pub fn rid_to_module_route_with_internal_rrt(&self, parent_module_route: CanonicalRoute, pb_rid: &ParsedBox<RoutedIdentifier>) -> (res: RidToModuleRouteResult)
        requires
            self@.module_skeletons.dom().contains(parent_module_route@),
        ensures
            res@ == rid_route(self@.module_skeletons[parent_module_route@].route_root_table, pb_rid.value.names()),
    {
        proof {
            assert(skeleton_map(&self.module_skeletons).dom().contains(parent_module_route@));
        }
        let msk = self.module_skeletons.get(&parent_module_route).unwrap();
        self.rid_to_module_route(&msk.route_root_table, pb_rid)
    }
}

/// What building the tables of one module works on: the roots of the
/// module, the signatures, the module's skeleton and the errors.
pub struct BuildState {
    pub rrt: RouteRootTableView,
    pub defs: Map<RouteView, SignatureView>,
    pub msk: SkeletonView,
    pub errors: Seq<NameErrorView>,
}

/// The state after the concrete definition `name` of the module at `route`
/// is recorded: the name becomes a relative root for its route, the route
/// gets its signature, and the skeleton lists it.
pub open spec fn add_concrete_step(
    st: BuildState,
    route: RouteView,
    name: Seq<char>,
    info: (bool, PositionView),
    kind: SkeletonDefSignatureKind,
) -> BuildState {
    let def = route.extend(seq![name]);
    BuildState {
        rrt: RouteRootTableView { relative: st.rrt.relative.insert(name, def), ..st.rrt },
        defs: st.defs.insert(
            def,
            SignatureView::Concrete { is_exported: info.0, position: info.1, kind, def_route: def },
        ),
        msk: st.msk.with_concrete(def, info.0, kind),
        errors: st.errors,
    }
}

/// The state after the concrete definitions `order` (described by `info`)
/// are recorded in order.
pub open spec fn add_concretes(
    st: BuildState,
    route: RouteView,
    order: Seq<Seq<char>>,
    info: spec_fn(Seq<char>) -> (bool, PositionView),
    kind: SkeletonDefSignatureKind,
) -> BuildState
    decreases order.len(),
{
    if order.len() == 0 {
        st
    } else {
        add_concrete_step(add_concretes(st, route, order.drop_last(), info, kind), route, order.last(),
            info(order.last()), kind)
    }
}

/// The state after the names of the `use` statements `uses` become
/// relative roots.
pub open spec fn declare_uses(st: BuildState, route: RouteView, uses: Seq<(Seq<char>, ParsedBox<Use>)>) -> BuildState
    decreases uses.len(),
{
    if uses.len() == 0 {
        st
    } else {
        let w = declare_uses(st, route, uses.drop_last());
        let name = uses.last().0;
        BuildState {
            rrt: RouteRootTableView { relative: w.rrt.relative.insert(name, route.extend(seq![name])), ..w.rrt },
            ..w
        }
    }
}

/// The state after the `use` statement `pb` defining `name` is resolved
/// against the roots: an unresolved alias where its route can be formed,
/// and otherwise an error and an erroneous alias.
pub open spec fn resolve_use_step(st: BuildState, route: RouteView, name: Seq<char>, pb: ParsedBox<Use>) -> BuildState {
    let def = route.extend(seq![name]);
    let names = pb.value.routed_name.value.names();
    let pos = pb.value.routed_name.position@;
    match rid_route(st.rrt, names) {
        RidResultView::Found(alias) => BuildState {
            defs: st.defs.insert(
                def,
                SignatureView::UnresolvedAlias {
                    is_exported: pb.value.is_export,
                    position: pb.position@,
                    def_route: def,
                    unresolved_route: alias,
                },
            ),
            msk: st.msk.with_alias(def, alias, pb.value.is_export),
            ..st
        },
        RidResultView::UnknownRootRouteFraction => BuildState {
            errors: st.errors.push(
                (GlobalNameAliasResolutionErrorKind::UnknownRootRouteFraction, route, Err(names), pos),
            ),
            defs: st.defs.insert(
                def,
                SignatureView::ErrorAlias(GlobalNameAliasResolutionErrorKind::UnknownRootRouteFraction),
            ),
            ..st
        },
        RidResultView::SingleCellOrRelativeKeywordRouteNotAllowed => BuildState {
            errors: st.errors.push(
                (GlobalNameAliasResolutionErrorKind::SingleCellOrRelativeKeywordRouteNotAllowed, route, Err(names), pos),
            ),
            defs: st.defs.insert(
                def,
                SignatureView::ErrorAlias(GlobalNameAliasResolutionErrorKind::UnknownRootRouteFraction),
            ),
            ..st
        },
    }
}

/// The state after the `use` statements `uses` are resolved in order.
pub open spec fn resolve_uses(st: BuildState, route: RouteView, uses: Seq<(Seq<char>, ParsedBox<Use>)>) -> BuildState
    decreases uses.len(),
{
    if uses.len() == 0 {
        st
    } else {
        resolve_use_step(resolve_uses(st, route, uses.drop_last()), route, uses.last().0, uses.last().1)
    }
}

/// An empty skeleton for the module at `route`.
pub open spec fn empty_skeleton(route: RouteView) -> SkeletonView {
    SkeletonView {
        this_route: route,
        route_root_table: RouteRootTableView { common: Map::empty(), keyword: Map::empty(), relative: Map::empty() },
        exported_submodules: Set::empty(),
        internal_submodules: Set::empty(),
        exported_concrete_definitions: Set::empty(),
        internal_concrete_definitions: Set::empty(),
        exported_alias_definitions: Map::empty(),
        internal_alias_definitions: Map::empty(),
    }
}

/// The roots of the module at `route`: the cell's roots, the keyword for
/// the module itself and, below the cell root, the keyword for its parent.
pub open spec fn module_roots(rrt: RouteRootTableView, route: RouteView) -> RouteRootTableView {
    let r1 = rrt.relative.insert(this_module_keyword(), route);
    RouteRootTableView {
        relative: if route.path.len() > 0 { r1.insert(parent_module_keyword(), route.parent().unwrap()) } else { r1 },
        ..rrt
    }
}

/// In a module below the cell root, `super` stands for the module that
/// holds it and `this` for the module itself: with no cell named by either
/// keyword, the route `super::x` names `x` in the parent module (the
/// module's route without its last name), and `this::x` names `x` in the
/// module.
pub proof fn lemma_module_roots_super(rrt: RouteRootTableView, route: RouteView, x: Seq<char>)
    requires
        route.path.len() > 0,
        !rrt.common.dom().contains(parent_module_keyword()),
        !rrt.common.dom().contains(this_module_keyword()),
    ensures
        module_roots(rrt, route).relative[parent_module_keyword()] == (RouteView { root: route.root, path: route.path.drop_last() }),
        rid_route(module_roots(rrt, route), seq![parent_module_keyword(), x]) == RidResultView::Found(
            RouteView { root: route.root, path: route.path.drop_last().push(x) },
        ),
        rid_route(module_roots(rrt, route), seq![this_module_keyword(), x]) == RidResultView::Found(
            RouteView { root: route.root, path: route.path.push(x) },
        ),
{
    let m = module_roots(rrt, route);
    assert(parent_module_keyword() != this_module_keyword()) by {
        reveal_strlit("super");
        reveal_strlit("this");
        assert("super"@.len() != "this"@.len());
    }
    let s1 = seq![parent_module_keyword(), x];
    let s2 = seq![this_module_keyword(), x];
    assert(s1.skip(1) =~= seq![x]);
    assert(s2.skip(1) =~= seq![x]);
    assert(route.path.drop_last() + seq![x] =~= route.path.drop_last().push(x));
    assert(route.path + seq![x] =~= route.path.push(x));
}

/// Whether each shape of `mm` is exported, and where it is written.
pub open spec fn shape_info(mm: MergedView) -> spec_fn(Seq<char>) -> (bool, PositionView) {
    |k: Seq<char>| (mm.shapes[k].value.is_export, mm.shapes[k].position@)
}

/// Whether each operation of `mm` is exported, and where it is written.
pub open spec fn operation_info(mm: MergedView) -> spec_fn(Seq<char>) -> (bool, PositionView) {
    |k: Seq<char>| (mm.operations[k].value.is_export, mm.operations[k].position@)
}

/// Whether each bind of `mm` is exported, and where it is written.
pub open spec fn bind_info(mm: MergedView) -> spec_fn(Seq<char>) -> (bool, PositionView) {
    |k: Seq<char>| (mm.binds[k].value.is_export, mm.binds[k].position@)
}

/// Whether each submodule of `mm` is exported, and where it is written.
pub open spec fn module_info(mm: MergedView) -> spec_fn(Seq<char>) -> (bool, PositionView) {
    |k: Seq<char>| mm.modules[k]
}

/// The state after the merged module `mm` at `route` is taken in: its
/// shapes, operations, binds and submodules (each in stored order), then
/// the names of its `use` statements, then their resolution.
pub open spec fn build_module(st: BuildState, route: RouteView, mm: MergedView) -> BuildState {
    let st1 = add_concretes(st, route, mm.shape_order, shape_info(mm), SkeletonDefSignatureKind::Shape);
    let st2 = add_concretes(st1, route, mm.operation_order, operation_info(mm), SkeletonDefSignatureKind::Operation);
    let st3 = add_concretes(st2, route, mm.bind_order, bind_info(mm), SkeletonDefSignatureKind::BindDef);
    let st4 = add_concretes(st3, route, mm.module_order, module_info(mm), SkeletonDefSignatureKind::Module);
    resolve_uses(declare_uses(st4, route, mm.uses), route, mm.uses)
}

/// The synthetic position.
pub open spec fn synthetic_position() -> PositionView {
    PositionView {
        path: "<synthetic>"@,
        start: 0,
        end: 0,
        start_line: 0,
        start_column: 0,
        end_line: 0,
        end_column: 0,
    }
}

/// The tables of the cell with root `root` after the modules `keys` of
/// `mms` are taken in order, under the cell's roots `rrt`.
pub open spec fn build_table(root: RouteView, rrt: RouteRootTableView, keys: Seq<RouteView>, mms: Map<RouteView, MergedView>) -> SkeletonTableView
    decreases keys.len(),
{
    if keys.len() == 0 {
        SkeletonTableView {
            root,
            module_skeletons: Map::empty(),
            def_signatures: Map::empty().insert(
                root,
                SignatureView::Concrete {
                    is_exported: true,
                    position: synthetic_position(),
                    kind: SkeletonDefSignatureKind::Module,
                    def_route: root,
                },
            ),
            errors: Seq::empty(),
        }
    } else {
        let t = build_table(root, rrt, keys.drop_last(), mms);
        let route = keys.last();
        let st = build_module(
            BuildState { rrt: module_roots(rrt, route), defs: t.def_signatures, msk: empty_skeleton(route), errors: t.errors },
            route,
            mms[route],
        );
        SkeletonTableView {
            module_skeletons: t.module_skeletons.insert(route, SkeletonView { route_root_table: st.rrt, ..st.msk }),
            def_signatures: st.defs,
            errors: st.errors,
            ..t
        }
    }
}

impl ModuleSkeletonTable {
    /// The state of building from the current tables.
    pub open spec fn state(
        rrt: &RouteRootTable,
        defs: &KeyedMap<CanonicalRoute, SkeletonDefSignature>,
        msk: &ModuleSkeleton,
        errors: &Vec<GlobalNameAliasResolutionError>,
    ) -> BuildState {
        BuildState {
            rrt: rrt@,
            defs: signature_map(defs),
            msk: msk@,
            errors: errors@.map_values(|e: GlobalNameAliasResolutionError| e@),
        }
    }

    /// Takes in the merged module `mm` at `route` under the cell's roots
    /// `rrt`, as `build_module` says, and stores its skeleton.
    fn take_module(&mut self, rrt: &RouteRootTable, route: &CanonicalRoute, mm: &MergedModule)
        ensures
            ({
                let st = build_module(
                    BuildState {
                        rrt: module_roots(rrt@, route@),
                        defs: old(self)@.def_signatures,
                        msk: empty_skeleton(route@),
                        errors: old(self)@.errors,
                    },
                    route@,
                    mm@,
                );
                &&& final(self)@.module_skeletons == old(self)@.module_skeletons.insert(
                    route@,
                    SkeletonView { route_root_table: st.rrt, ..st.msk },
                )
                &&& final(self)@.def_signatures == st.defs
                &&& final(self)@.errors == st.errors
                &&& final(self)@.root == old(self)@.root
            }),
    {
        let ghost mmv = mm@;
        let ghost rv = route@;
        let mut this_rrt = rrt.duplicate();
        let mut this_msk = ModuleSkeleton::new(route.duplicate());
        this_rrt.insert_relative_keyword(this_module_keyword_name(), route.duplicate());
        match route.get_parent_route() {
            Some(parent_module_route) => {
                this_rrt.insert_relative_keyword(parent_module_keyword_name(), parent_module_route);
            },
            None => {},
        }
        proof {
            assert(this_rrt@ == module_roots(rrt@, rv));
            assert(this_msk@ == empty_skeleton(rv));
        }
        proof {
            use_type_invariant(&this_rrt);
        }

        // s_st
        proof {
            use_type_invariant(&mm.shape_def_stmts);
            mm.shape_def_stmts.lemma_lengths();
        }
        let ghost s_st0 = Self::state(&this_rrt, &self.def_signatures, &this_msk, &self.errors);
        let mut i: usize = 0;
        while i < mm.shape_def_stmts.len()
            invariant
                mm.shape_def_stmts.inv(),
                mm.shape_def_stmts.keys().len() == mm.shape_def_stmts.size(),
                mm@ == mmv,
                route@ == rv,
                i <= mm.shape_def_stmts.size(),
                this_rrt.inv(),
                self.root == old(self).root,
                self.module_skeletons == old(self).module_skeletons,
                Self::state(&this_rrt, &self.def_signatures, &this_msk, &self.errors) == add_concretes(s_st0, rv,
                    mmv.shape_order.take(i as int), shape_info(mmv), SkeletonDefSignatureKind::Shape),
            decreases mm.shape_def_stmts.size() - i,
        {
            let name = mm.shape_def_stmts.key_at(i);
            let pb = mm.shape_def_stmts.value_at(i);
            proof {
                mm.shape_def_stmts.lemma_entry(i as int);
                assert(mmv.shape_order.take(i + 1).drop_last() =~= mmv.shape_order.take(i as int));
            }
            let def_route = CanonicalRoute::chain_one(route.duplicate(), name.clone());
            this_rrt.insert_relative_defined(name.clone(), def_route.duplicate());
            let sig = SkeletonDefSignature::push_from_pb_shape(def_route.duplicate(), pb);
            insert_signature(&mut self.def_signatures, def_route.duplicate(), sig);
            this_msk.add_from_pb_shape(def_route, pb);
            i = i + 1;
        }
        proof {
            assert(mmv.shape_order.take(i as int) =~= mmv.shape_order);
        }

        // o_st
        proof {
            use_type_invariant(&mm.operation_def_stmts);
            mm.operation_def_stmts.lemma_lengths();
        }
        let ghost o_st0 = Self::state(&this_rrt, &self.def_signatures, &this_msk, &self.errors);
        let mut i: usize = 0;
        while i < mm.operation_def_stmts.len()
            invariant
                mm.operation_def_stmts.inv(),
                mm.operation_def_stmts.keys().len() == mm.operation_def_stmts.size(),
                mm@ == mmv,
                route@ == rv,
                i <= mm.operation_def_stmts.size(),
                this_rrt.inv(),
                self.root == old(self).root,
                self.module_skeletons == old(self).module_skeletons,
                Self::state(&this_rrt, &self.def_signatures, &this_msk, &self.errors) == add_concretes(o_st0, rv,
                    mmv.operation_order.take(i as int), operation_info(mmv), SkeletonDefSignatureKind::Operation),
            decreases mm.operation_def_stmts.size() - i,
        {
            let name = mm.operation_def_stmts.key_at(i);
            let pb = mm.operation_def_stmts.value_at(i);
            proof {
                mm.operation_def_stmts.lemma_entry(i as int);
                assert(mmv.operation_order.take(i + 1).drop_last() =~= mmv.operation_order.take(i as int));
            }
            let def_route = CanonicalRoute::chain_one(route.duplicate(), name.clone());
            this_rrt.insert_relative_defined(name.clone(), def_route.duplicate());
            let sig = SkeletonDefSignature::push_from_pb_operation(def_route.duplicate(), pb);
            insert_signature(&mut self.def_signatures, def_route.duplicate(), sig);
            this_msk.add_from_pb_operation(def_route, pb);
            i = i + 1;
        }
        proof {
            assert(mmv.operation_order.take(i as int) =~= mmv.operation_order);
        }

        // b_st
        proof {
            use_type_invariant(&mm.bind_def_stmts);
            mm.bind_def_stmts.lemma_lengths();
        }
        let ghost b_st0 = Self::state(&this_rrt, &self.def_signatures, &this_msk, &self.errors);
        let mut i: usize = 0;
        while i < mm.bind_def_stmts.len()
            invariant
                mm.bind_def_stmts.inv(),
                mm.bind_def_stmts.keys().len() == mm.bind_def_stmts.size(),
                mm@ == mmv,
                route@ == rv,
                i <= mm.bind_def_stmts.size(),
                this_rrt.inv(),
                self.root == old(self).root,
                self.module_skeletons == old(self).module_skeletons,
                Self::state(&this_rrt, &self.def_signatures, &this_msk, &self.errors) == add_concretes(b_st0, rv,
                    mmv.bind_order.take(i as int), bind_info(mmv), SkeletonDefSignatureKind::BindDef),
            decreases mm.bind_def_stmts.size() - i,
        {
            let name = mm.bind_def_stmts.key_at(i);
            let pb = mm.bind_def_stmts.value_at(i);
            proof {
                mm.bind_def_stmts.lemma_entry(i as int);
                assert(mmv.bind_order.take(i + 1).drop_last() =~= mmv.bind_order.take(i as int));
            }
            let def_route = CanonicalRoute::chain_one(route.duplicate(), name.clone());
            this_rrt.insert_relative_defined(name.clone(), def_route.duplicate());
            let sig = SkeletonDefSignature::push_from_pb_bind(def_route.duplicate(), pb);
            insert_signature(&mut self.def_signatures, def_route.duplicate(), sig);
            this_msk.add_from_pb_bind(def_route, pb);
            i = i + 1;
        }
        proof {
            assert(mmv.bind_order.take(i as int) =~= mmv.bind_order);
        }

        // m_st
        proof {
            use_type_invariant(&mm.module_def_names);
            mm.module_def_names.lemma_lengths();
        }
        let ghost m_st0 = Self::state(&this_rrt, &self.def_signatures, &this_msk, &self.errors);
        let mut i: usize = 0;
        while i < mm.module_def_names.len()
            invariant
                mm.module_def_names.inv(),
                mm.module_def_names.keys().len() == mm.module_def_names.size(),
                mm@ == mmv,
                route@ == rv,
                i <= mm.module_def_names.size(),
                this_rrt.inv(),
                self.root == old(self).root,
                self.module_skeletons == old(self).module_skeletons,
                Self::state(&this_rrt, &self.def_signatures, &this_msk, &self.errors) == add_concretes(m_st0, rv,
                    mmv.module_order.take(i as int), module_info(mmv), SkeletonDefSignatureKind::Module),
            decreases mm.module_def_names.size() - i,
        {
            let name = mm.module_def_names.key_at(i);
            let pb = mm.module_def_names.value_at(i);
            proof {
                mm.module_def_names.lemma_entry(i as int);
                assert(mmv.module_order.take(i + 1).drop_last() =~= mmv.module_order.take(i as int));
            }
            let def_route = CanonicalRoute::chain_one(route.duplicate(), name.clone());
            this_rrt.insert_relative_defined(name.clone(), def_route.duplicate());
            let sig = SkeletonDefSignature::push_from_pb_module(def_route.duplicate(), pb);
            insert_signature(&mut self.def_signatures, def_route.duplicate(), sig);
            this_msk.add_from_pb_module(def_route, pb);
            i = i + 1;
        }
        proof {
            assert(mmv.module_order.take(i as int) =~= mmv.module_order);
        }

        // use names
        let ghost u_st0 = Self::state(&this_rrt, &self.def_signatures, &this_msk, &self.errors);
        let mut i: usize = 0;
        while i < mm.use_stmts.len()
            invariant
                mm@ == mmv,
                route@ == rv,
                i <= mm.use_stmts@.len(),
                this_rrt.inv(),
                self.root == old(self).root,
                self.module_skeletons == old(self).module_skeletons,
                Self::state(&this_rrt, &self.def_signatures, &this_msk, &self.errors) == declare_uses(u_st0, rv,
                    mmv.uses.take(i as int)),
            decreases mm.use_stmts.len() - i,
        {
            let name = &mm.use_stmts[i].0;
            proof {
                assert(mmv.uses.take(i + 1).drop_last() =~= mmv.uses.take(i as int));
            }
            let def_route = CanonicalRoute::chain_one(route.duplicate(), name.clone());
            this_rrt.insert_relative_defined(name.clone(), def_route);
            i = i + 1;
        }
        proof {
            assert(mmv.uses.take(i as int) =~= mmv.uses);
        }
        // use resolution
        let ghost r_st0 = Self::state(&this_rrt, &self.def_signatures, &this_msk, &self.errors);
        let mut i: usize = 0;
        while i < mm.use_stmts.len()
            invariant
                mm@ == mmv,
                route@ == rv,
                i <= mm.use_stmts@.len(),
                this_rrt.inv(),
                self.root == old(self).root,
                self.module_skeletons == old(self).module_skeletons,
                Self::state(&this_rrt, &self.def_signatures, &this_msk, &self.errors) == resolve_uses(r_st0, rv,
                    mmv.uses.take(i as int)),
            decreases mm.use_stmts.len() - i,
        {
            let name = &mm.use_stmts[i].0;
            let pb_use = &mm.use_stmts[i].1;
            proof {
                assert(mmv.uses.take(i + 1).drop_last() =~= mmv.uses.take(i as int));
                assert(mmv.uses[i as int] == (name@, *pb_use));
            }
            let ghost before = Self::state(&this_rrt, &self.def_signatures, &this_msk, &self.errors);
            let def_route = CanonicalRoute::chain_one(route.duplicate(), name.clone());
            let alias_route_result = self.rid_to_module_route(&this_rrt, &pb_use.value.routed_name);
            match alias_route_result {
                RidToModuleRouteResult::Found(alias_route) => {
                    let sig = SkeletonDefSignature::push_from_pb_use(def_route.duplicate(), alias_route.duplicate(), pb_use);
                    insert_signature(&mut self.def_signatures, def_route.duplicate(), sig);
                    this_msk.add_from_pb_use(def_route, alias_route, pb_use);
                },
                RidToModuleRouteResult::UnknownRootRouteFraction => {
                    let e = GlobalNameAliasResolutionError::unknown_root_route_fraction(
                        route.duplicate(),
                        pb_use.value.routed_name.value.to_vec_string(),
                        pb_use.value.routed_name.position.duplicate(),
                    );
                    self.errors.push(e);
                    insert_signature(&mut self.def_signatures, def_route,
                        SkeletonDefSignature::ErrorAlias(GlobalNameAliasResolutionErrorKind::UnknownRootRouteFraction));
                    proof {
                        assert(self.errors@.map_values(|e: GlobalNameAliasResolutionError| e@)
                            =~= before.errors.push(e@));
                    }
                },
                RidToModuleRouteResult::SingleCellOrRelativeKeywordRouteNotAllowed => {
                    let e = GlobalNameAliasResolutionError::single_cell_or_relative_keyword_route_not_allowed(
                        route.duplicate(),
                        pb_use.value.routed_name.value.to_vec_string(),
                        pb_use.value.routed_name.position.duplicate(),
                    );
                    self.errors.push(e);
                    insert_signature(&mut self.def_signatures, def_route,
                        SkeletonDefSignature::ErrorAlias(GlobalNameAliasResolutionErrorKind::UnknownRootRouteFraction));
                    proof {
                        assert(self.errors@.map_values(|e: GlobalNameAliasResolutionError| e@)
                            =~= before.errors.push(e@));
                    }
                },
            }
            i = i + 1;
        }
        proof {
            assert(mmv.uses.take(i as int) =~= mmv.uses);
        }
        let ghost fin = Self::state(&this_rrt, &self.def_signatures, &this_msk, &self.errors);
        proof {
            let init = BuildState {
                rrt: module_roots(rrt@, rv),
                defs: old(self)@.def_signatures,
                msk: empty_skeleton(rv),
                errors: old(self)@.errors,
            };
            assert(s_st0 == init);
            assert(o_st0 == add_concretes(init, rv, mmv.shape_order, shape_info(mmv), SkeletonDefSignatureKind::Shape));
            assert(fin == build_module(init, rv, mmv));
        }
        this_msk.route_root_table = this_rrt;
        let ghost mskv = this_msk@;
        insert_skeleton(&mut self.module_skeletons, route.duplicate(), this_msk);
        proof {
            assert(mskv == SkeletonView { route_root_table: fin.rrt, ..fin.msk });
            assert(self@.module_skeletons == old(self)@.module_skeletons.insert(rv, mskv));
            assert(self@.def_signatures == fin.defs);
            assert(self@.errors == fin.errors);
            assert(self@.root == old(self)@.root);
        }
    }
}

impl ModuleSkeletonTable {
    /// The name tables of the cell `cell_sign` built from its merged
    /// modules `mmt` under the cell's roots `rrt`, as `build_table` says:
    /// the cell's root module gets a synthetic exported signature, then each
    /// module is taken in, in stored order.
    pub fn new(cell_sign: CellSignature, rrt: &RouteRootTable, mmt: &MergedModuleTable) -> (res: Self)
        ensures
            res@ == build_table(
                RouteView { root: cell_sign@, path: Seq::empty() },
                rrt@,
                mmt.m_modules.keys(),
                module_table(&mmt.m_modules),
            ),
    {
        let root = CanonicalRoute::new_root(cell_sign);
        let mut def_signatures: KeyedMap<CanonicalRoute, SkeletonDefSignature> = KeyedMap::new();
        proof {
            assert(signature_map(&def_signatures) =~= Map::<RouteView, SignatureView>::empty());
        }
        insert_signature(&mut def_signatures, root.duplicate(), SkeletonDefSignature::new_dummy_module(root.duplicate(), true));
        let mut this = Self {
            root: root.duplicate(),
            module_skeletons: KeyedMap::new(),
            def_signatures,
            errors: Vec::new(),
        };
        proof {
            assert(skeleton_map(&this.module_skeletons) =~= Map::<RouteView, SkeletonView>::empty());
            assert(this@.errors =~= Seq::<NameErrorView>::empty());
            use_type_invariant(&mmt.m_modules);
            mmt.m_modules.lemma_lengths();
            assert(this@ == build_table(root@, rrt@, mmt.m_modules.keys().take(0), module_table(&mmt.m_modules)));
        }
        let mut i: usize = 0;
        while i < mmt.m_modules.len()
            invariant
                mmt.m_modules.inv(),
                mmt.m_modules.keys().len() == mmt.m_modules.size(),
                i <= mmt.m_modules.size(),
                this@ == build_table(root@, rrt@, mmt.m_modules.keys().take(i as int), module_table(&mmt.m_modules)),
            decreases mmt.m_modules.size() - i,
        {
            let route = mmt.m_modules.key_at(i);
            let mm = mmt.m_modules.value_at(i);
            proof {
                mmt.m_modules.lemma_entry(i as int);
                let ks = mmt.m_modules.keys();
                assert(ks.take(i + 1).drop_last() =~= ks.take(i as int));
                assert(ks.take(i + 1).last() == route@);
                assert(module_table(&mmt.m_modules)[route@] == mm@);
            }
            this.take_module(rrt, route, mm);
            i = i + 1;
        }
        proof {
            assert(mmt.m_modules.keys().take(i as int) =~= mmt.m_modules.keys());
        }
        this
    }
}

} // verus!
