use vstd::prelude::*;
use std::collections::VecDeque;
use crate::cell::CellSignature;
use crate::def_signature::{SignatureView, SkeletonDefSignature};
use crate::keyed::KeyedMap;
use crate::module_skeleton::{ModuleSkeletonTable, SkeletonTableView, SkeletonView, skeleton_map};
use crate::name_errors::{GlobalNameAliasResolutionErrorKind, GlobalNameAliasResolutionErrors};
use crate::route::{CanonicalRoute, Route, RouteView};

verus! {

/// The name tables of every cell whose aliases have been resolved, and the
/// errors found so far.
#[derive(Debug)]
pub struct GrandModuleSkeletonTable {
    pub cell_module_skeleton_table: KeyedMap<CellSignature, ModuleSkeletonTable>,
    pub errors: GlobalNameAliasResolutionErrors,
}

/// The tables of every cell, by cell name.
pub open spec fn cell_tables(m: &KeyedMap<CellSignature, ModuleSkeletonTable>) -> Map<Seq<char>, SkeletonTableView> {
    Map::new(|k: Seq<char>| m.has(k), |k: Seq<char>| m.at(k)@)
}

/// Where a route leads when it is looked up.
#[derive(Debug)]
pub enum LookUpCanonicalRouteResult {
    Resolved(CanonicalRoute),
    VisibilityDenial,
    NameNotFound,
}

/// The abstract value of a lookup's outcome.
pub enum LookupView {
    Resolved(RouteView),
    VisibilityDenial,
    NameNotFound,
}

impl View for LookUpCanonicalRouteResult {
    type V = LookupView;

    open spec fn view(&self) -> LookupView {
        match self {
            LookUpCanonicalRouteResult::Resolved(r) => LookupView::Resolved(r@),
            LookUpCanonicalRouteResult::VisibilityDenial => LookupView::VisibilityDenial,
            LookUpCanonicalRouteResult::NameNotFound => LookupView::NameNotFound,
        }
    }
}

/// What a route leads to that may be a signature of its cell: the route
/// the signature resolves to, or the error an erroneous alias stands for.
/// A route of an unknown cell, a route that is no signature and a
/// signature still unresolved lead nowhere.
pub open spec fn registered(g: Map<Seq<char>, SkeletonTableView>, route: RouteView) -> LookupView {
    if !(g.dom().contains(route.root) && g[route.root].def_signatures.dom().contains(route)) {
        LookupView::NameNotFound
    } else {
        match g[route.root].def_signatures[route] {
            SignatureView::ErrorAlias(kind) => if kind == GlobalNameAliasResolutionErrorKind::VisibilityDenied {
                LookupView::VisibilityDenial
            } else {
                LookupView::NameNotFound
            },
            SignatureView::Concrete { def_route, .. } => LookupView::Resolved(def_route),
            SignatureView::ResolvedAlias { resolved_route, .. } => LookupView::Resolved(resolved_route),
            SignatureView::UnresolvedAlias { .. } => LookupView::NameNotFound,
        }
    }
}

/// What the alias whose named route is `src` in the tables `mskt` leads
/// to, or `None` where that route is no concrete or resolved signature
/// there.
pub open spec fn alias_target(g: Map<Seq<char>, SkeletonTableView>, mskt: SkeletonTableView, src: RouteView) -> Option<LookupView> {
    if !mskt.def_signatures.dom().contains(src) {
        None
    } else {
        match mskt.def_signatures[src] {
            SignatureView::Concrete { def_route, .. } => Some(registered(g, def_route)),
            SignatureView::ResolvedAlias { resolved_route, .. } => Some(registered(g, resolved_route)),
            _ => None,
        }
    }
}

/// What the name `child` of the module `msk` at `msk_route` leads to when
/// seen from `view_route`: exported names are always visible; internal
/// ones only from inside the module; aliases lead where their target
/// leads, and an erroneous alias counts as absent.
pub open spec fn child_lookup(
    g: Map<Seq<char>, SkeletonTableView>,
    mskt: SkeletonTableView,
    msk: SkeletonView,
    msk_route: RouteView,
    child: RouteView,
    view_route: RouteView,
) -> LookupView {
    let exported_alias = if msk.exported_alias_definitions.dom().contains(child) {
        alias_target(g, mskt, msk.exported_alias_definitions[child])
    } else {
        None
    };
    if msk.exported_submodules.contains(child) || msk.exported_concrete_definitions.contains(child) {
        LookupView::Resolved(child)
    } else if exported_alias is Some {
        exported_alias.unwrap()
    } else if msk.internal_submodules.contains(child) || msk.internal_concrete_definitions.contains(child) {
        if msk_route.is_prefix_of(view_route) {
            LookupView::Resolved(child)
        } else {
            LookupView::VisibilityDenial
        }
    } else if msk.internal_alias_definitions.dom().contains(child) {
        if msk_route.is_prefix_of(view_route) {
            match alias_target(g, mskt, msk.internal_alias_definitions[child]) {
                Some(r) => r,
                None => LookupView::NameNotFound,
            }
        } else {
            LookupView::VisibilityDenial
        }
    } else {
        LookupView::NameNotFound
    }
}

/// Where the names `rest` lead from the resolved module route `prefix`,
/// one name at a time, seen from `view_route`.
pub open spec fn lookup_walk(g: Map<Seq<char>, SkeletonTableView>, prefix: RouteView, rest: Seq<Seq<char>>, view_route: RouteView) -> LookupView
    decreases rest.len(),
{
    if rest.len() == 0 {
        LookupView::Resolved(prefix)
    } else if !g.dom().contains(prefix.root) || !g[prefix.root].module_skeletons.dom().contains(prefix) {
        LookupView::NameNotFound
    } else {
        let mskt = g[prefix.root];
        match child_lookup(g, mskt, mskt.module_skeletons[prefix], prefix, prefix.extend(seq![rest[0]]), view_route) {
            LookupView::Resolved(r) => lookup_walk(g, r, rest.drop_first(), view_route),
            other => other,
        }
    }
}

/// Where `route` leads seen from `view_route`: a signature of its cell
/// leads where it resolves to; otherwise the route is walked name by name
/// from its cell's root.  A route of an unknown cell leads nowhere.
pub open spec fn lookup_spec(g: Map<Seq<char>, SkeletonTableView>, route: RouteView, view_route: RouteView) -> LookupView {
    if !g.dom().contains(route.root) {
        LookupView::NameNotFound
    } else if g[route.root].def_signatures.dom().contains(route) {
        registered(g, route)
    } else {
        lookup_walk(g, RouteView { root: route.root, path: Seq::empty() }, route.path, view_route)
    }
}

/// The state of a lookup in progress: resolved, still walking from a
/// resolved prefix with names left, or failed.
pub enum LookUpCanonicalRouteIntermediateState {
    Resolved(CanonicalRoute),
    Unresolved(CanonicalRoute, VecDeque<String>),
    VisibilityDenial,
    NameNotFound,
}

/// The abstract value of a lookup in progress.
pub enum LookupStateView {
    Resolved(RouteView),
    Unresolved(RouteView, Seq<Seq<char>>),
    VisibilityDenial,
    NameNotFound,
}

impl View for LookUpCanonicalRouteIntermediateState {
    type V = LookupStateView;

    open spec fn view(&self) -> LookupStateView {
        match self {
            LookUpCanonicalRouteIntermediateState::Resolved(r) => LookupStateView::Resolved(r@),
            LookUpCanonicalRouteIntermediateState::Unresolved(r, q) => LookupStateView::Unresolved(r@, q@.map_values(|s: String| s@)),
            LookUpCanonicalRouteIntermediateState::VisibilityDenial => LookupStateView::VisibilityDenial,
            LookUpCanonicalRouteIntermediateState::NameNotFound => LookupStateView::NameNotFound,
        }
    }
}

impl LookUpCanonicalRouteIntermediateState {
    /// A lookup of `route` about to start: resolved for a cell root, and
    /// otherwise walking its path from the cell root.
    pub fn new_from_route(route: Route) -> (res: Self)
        ensures
            route@.path.len() == 0 ==> res@ == LookupStateView::Resolved(route@),
            route@.path.len() > 0 ==> res@ == LookupStateView::Unresolved(
                RouteView { root: route@.root, path: Seq::empty() },
                route@.path,
            ),
    {
        if route.path.len() == 0 {
            LookUpCanonicalRouteIntermediateState::Resolved(route)
        } else {
            let ghost p = route@.path;
            let Route { root, path } = route;
            let mut q: VecDeque<String> = VecDeque::new();
            let mut path = path;
            let n: usize = path.len();
            let mut i: usize = 0;
            while path.len() > 0
                invariant
                    n == p.len(),
                    i <= p.len(),
                    path.deep_view() == p.skip(i as int),
                    q@.map_values(|s: String| s@) == p.take(i as int),
                decreases path.len(),
            {
                let ghost before = path@;
                proof {
                    assert(before.map_values(|x: String| x@) =~= path.deep_view());
                }
                let s = path.remove(0);
                proof {
                    assert(path@ =~= before.subrange(1, before.len() as int));
                    assert(p.skip(i as int)[0] == s@);
                    assert(path.deep_view() =~= path@.map_values(|x: String| x@));
                    assert forall|j: int| 0 <= j < path@.len() implies path@[j]@ == p.skip(i + 1)[j] by {
                        assert(path@[j] == before[j + 1]);
                        assert(before.map_values(|x: String| x@)[j + 1] == p.skip(i as int)[j + 1]);
                    }
                    assert(path.deep_view() =~= p.skip(i + 1));
                    assert(p.take(i + 1) =~= p.take(i as int).push(s@));
                }
                q.push_back(s);
                proof {
                    assert(q@.map_values(|s: String| s@) =~= p.take(i + 1));
                }
                i = i + 1;
            }
            proof {
                assert(p.take(i as int) =~= p);
            }
            LookUpCanonicalRouteIntermediateState::Unresolved(CanonicalRoute::new(root), q)
        }
    }

    /// Whether the lookup has failed.
    pub fn is_error(&self) -> (res: bool)
        ensures
            res == (self@ is VisibilityDenial || self@ is NameNotFound),
    {
        match self {
            LookUpCanonicalRouteIntermediateState::VisibilityDenial
            | LookUpCanonicalRouteIntermediateState::NameNotFound => true,
            _ => false,
        }
    }

    /// The route the walk tries next: the resolved prefix with the next
    /// name; `None` unless the walk is in progress.
    pub fn next_potential_route(&self) -> (res: Option<CanonicalRoute>)
        requires
            self@ matches LookupStateView::Unresolved(_, rest) ==> rest.len() > 0,
        ensures
            match self@ {
                LookupStateView::Unresolved(prefix, rest) => res is Some && res.unwrap()@ == prefix.extend(seq![rest[0]]),
                _ => res is None,
            },
    {
        match self {
            LookUpCanonicalRouteIntermediateState::Unresolved(canonical_prefix_route, unresolved_route_fractions) => {
                let first = unresolved_route_fractions[0].clone();
                Some(Route::chain_one(canonical_prefix_route.duplicate(), first))
            },
            _ => None,
        }
    }

    /// The next name resolved to `new_resolved`: the walk goes on from there,
    /// or ends resolved when no name is left.
    pub fn resolve_next(&mut self, new_resolved: CanonicalRoute)
        requires
            old(self)@ matches LookupStateView::Unresolved(_, rest) && rest.len() > 0,
        ensures
            ({
                let rest = old(self)@->Unresolved_1.drop_first();
                final(self)@ == if rest.len() == 0 {
                    LookupStateView::Resolved(new_resolved@)
                } else {
                    LookupStateView::Unresolved(new_resolved@, rest)
                }
            }),
    {
        let mut tmp = LookUpCanonicalRouteIntermediateState::NameNotFound;
        std::mem::swap(&mut tmp, self);
        match tmp {
            LookUpCanonicalRouteIntermediateState::Unresolved(_, q) => {
                let ghost qv = q@.map_values(|s: String| s@);
                let mut q = q;
                let _ = q.pop_front();
                proof {
                    assert(q@.map_values(|s: String| s@) =~= qv.drop_first());
                }
                if q.len() == 0 {
                    *self = LookUpCanonicalRouteIntermediateState::Resolved(new_resolved);
                } else {
                    *self = LookUpCanonicalRouteIntermediateState::Unresolved(new_resolved, q);
                }
            },
            _ => {},
        }
    }

    /// The lookup fails for want of visibility.
    pub fn into_visibility_denial_error(&mut self)
        ensures
            final(self)@ == LookupStateView::VisibilityDenial,
    {
        *self = LookUpCanonicalRouteIntermediateState::VisibilityDenial;
    }

    /// The lookup fails for want of the name.
    pub fn into_name_not_found_error(&mut self)
        ensures
            final(self)@ == LookupStateView::NameNotFound,
    {
        *self = LookUpCanonicalRouteIntermediateState::NameNotFound;
    }

    /// The outcome of a finished lookup.
    pub fn into_result(self) -> (res: LookUpCanonicalRouteResult)
        requires
            !(self@ is Unresolved),
        ensures
            res@ == match self@ {
                LookupStateView::Resolved(r) => LookupView::Resolved(r),
                LookupStateView::VisibilityDenial => LookupView::VisibilityDenial,
                _ => LookupView::NameNotFound,
            },
    {
        match self {
            LookUpCanonicalRouteIntermediateState::Resolved(r) => LookUpCanonicalRouteResult::Resolved(r),
            LookUpCanonicalRouteIntermediateState::VisibilityDenial => LookUpCanonicalRouteResult::VisibilityDenial,
            _ => LookUpCanonicalRouteResult::NameNotFound,
        }
    }
}

/// The outcome a lookup in state `st` comes to.
pub open spec fn state_result(g: Map<Seq<char>, SkeletonTableView>, st: LookupStateView, view_route: RouteView) -> LookupView {
    match st {
        LookupStateView::Resolved(r) => LookupView::Resolved(r),
        LookupStateView::Unresolved(p, rest) => lookup_walk(g, p, rest, view_route),
        LookupStateView::VisibilityDenial => LookupView::VisibilityDenial,
        LookupStateView::NameNotFound => LookupView::NameNotFound,
    }
}

impl LookUpCanonicalRouteIntermediateState {
    /// Whether the walk is still in progress.
    fn in_progress(&self) -> (res: bool)
        ensures
            res == (self@ is Unresolved),
    {
        match self {
            LookUpCanonicalRouteIntermediateState::Unresolved(_, _) => true,
            _ => false,
        }
    }
}

impl GrandModuleSkeletonTable {
    /// No cell yet, and no error.
    pub fn new_empty() -> (res: Self)
        ensures
            cell_tables(&res.cell_module_skeleton_table) == Map::<Seq<char>, SkeletonTableView>::empty(),
            res.errors@ == Seq::<crate::name_errors::GlobalNameAliasResolutionError>::empty(),
    {
        let r = Self { cell_module_skeleton_table: KeyedMap::new(), errors: Vec::new() };
        proof {
            assert(cell_tables(&r.cell_module_skeleton_table) =~= Map::<Seq<char>, SkeletonTableView>::empty());
        }
        r
    }

    /// The signature of `route` in the tables of its cell, if there is one.
    pub fn lookup_def_signature(&self, route: &CanonicalRoute) -> (res: Option<&SkeletonDefSignature>)
        ensures
            ({
                let g = cell_tables(&self.cell_module_skeleton_table);
                match res {
                    Some(sig) => g.dom().contains(route@.root) && g[route@.root].def_signatures.dom().contains(route@)
                        && sig@ == g[route@.root].def_signatures[route@],
                    None => !(g.dom().contains(route@.root) && g[route@.root].def_signatures.dom().contains(route@)),
                }
            }),
    {
        match self.cell_module_skeleton_table.get(&route.root) {
            Some(mskt) => mskt.def_signatures.get(route),
            None => None,
        }
    }

    /// What a route that may be a signature of its cell leads to, as
    /// `registered` says.
    fn lookup_registered(&self, route: &CanonicalRoute) -> (res: LookUpCanonicalRouteResult)
        ensures
            res@ == registered(cell_tables(&self.cell_module_skeleton_table), route@),
    {
        match self.lookup_def_signature(route) {
            None => LookUpCanonicalRouteResult::NameNotFound,
            Some(sk_def_sign) => match sk_def_sign {
                SkeletonDefSignature::ErrorAlias(err_kind) => match err_kind {
                    GlobalNameAliasResolutionErrorKind::VisibilityDenied => LookUpCanonicalRouteResult::VisibilityDenial,
                    _ => LookUpCanonicalRouteResult::NameNotFound,
                },
                SkeletonDefSignature::UnresolvedAlias(_) => LookUpCanonicalRouteResult::NameNotFound,
                _ => LookUpCanonicalRouteResult::Resolved(sk_def_sign.get_resolved_route()),
            },
        }
    }

    /// What the alias whose named route is `src` in `mskt` leads to, as
    /// `alias_target` says.
    fn lookup_alias(&self, mskt: &ModuleSkeletonTable, src: &Route) -> (res: Option<LookUpCanonicalRouteResult>)
        ensures
            match res {
                Some(r) => alias_target(cell_tables(&self.cell_module_skeleton_table), mskt@, src@) == Some(r@),
                None => alias_target(cell_tables(&self.cell_module_skeleton_table), mskt@, src@) is None,
            },
    {
        match mskt.def_signatures.get(src) {
            Some(SkeletonDefSignature::Concrete(c_sk_def_sign)) => Some(self.lookup_registered(&c_sk_def_sign.def_route)),
            Some(SkeletonDefSignature::ResolvedAlias(ra_sk_def_sign)) => Some(self.lookup_registered(&ra_sk_def_sign.resolved_route)),
            _ => None,
        }
    }

    /// What the name `child_route` of the module at `msk_route` in the
    /// tables `mskt` leads to, seen from `view_route`, as `child_lookup`
    /// says.
    fn lookup_child_route(&self, mskt: &ModuleSkeletonTable, msk_route: &CanonicalRoute, child_route: &Route, view_route: &Route) -> (res: LookUpCanonicalRouteResult)
        requires
            mskt@.module_skeletons.dom().contains(msk_route@),
        ensures
            res@ == child_lookup(cell_tables(&self.cell_module_skeleton_table), mskt@, mskt@.module_skeletons[msk_route@],
                msk_route@, child_route@, view_route@),
    {
        let msk = mskt.module_skeletons.get(msk_route).unwrap();
        if msk.exported_submodules.contains(child_route) || msk.exported_concrete_definitions.contains(child_route) {
            return LookUpCanonicalRouteResult::Resolved(child_route.duplicate());
        }
        match msk.exported_alias_definitions.get(child_route) {
            Some(aliased_route) => {
                match self.lookup_alias(mskt, aliased_route) {
                    Some(r) => {
                        return r;
                    },
                    None => {},
                }
            },
            None => {},
        }
        if msk.internal_submodules.contains(child_route) || msk.internal_concrete_definitions.contains(child_route) {
            return if Route::is_ancestor(msk_route, view_route) {
                LookUpCanonicalRouteResult::Resolved(child_route.duplicate())
            } else {
                LookUpCanonicalRouteResult::VisibilityDenial
            };
        }
        match msk.internal_alias_definitions.get(child_route) {
            Some(aliased_route) => {
                if Route::is_ancestor(msk_route, view_route) {
                    match self.lookup_alias(mskt, aliased_route) {
                        Some(r) => r,
                        None => LookUpCanonicalRouteResult::NameNotFound,
                    }
                } else {
                    LookUpCanonicalRouteResult::VisibilityDenial
                }
            },
            None => LookUpCanonicalRouteResult::NameNotFound,
        }
    }

    /// Where `route` leads seen from `view_route`, as `lookup_spec` says.
    pub fn lookup_canonical_route(&self, route: &Route, view_route: &CanonicalRoute) -> (res: LookUpCanonicalRouteResult)
        ensures
            res@ == lookup_spec(cell_tables(&self.cell_module_skeleton_table), route@, view_route@),
    {
        let ghost g = cell_tables(&self.cell_module_skeleton_table);
        let mskt0 = match self.cell_module_skeleton_table.get(&route.root) {
            Some(t) => t,
            None => {
                return LookUpCanonicalRouteResult::NameNotFound;
            },
        };
        if mskt0.def_signatures.contains_key(route) {
            return self.lookup_registered(route);
        }
        let ghost root0 = RouteView { root: route@.root, path: Seq::empty() };
        let mut state = LookUpCanonicalRouteIntermediateState::new_from_route(route.duplicate());
        proof {
            if route@.path.len() == 0 {
                assert(route@.path =~= Seq::<Seq<char>>::empty());
                assert(route@ == root0);
            }
        }
        while state.in_progress()
            invariant
                g == cell_tables(&self.cell_module_skeleton_table),
                state_result(g, state@, view_route@) == lookup_walk(g, root0, route@.path, view_route@),
                state@ matches LookupStateView::Unresolved(p, rest) ==> rest.len() > 0,
            decreases (match state@ {
                LookupStateView::Unresolved(_, rest) => rest.len(),
                _ => 0,
            }),
        {
            let ghost p = state@->Unresolved_0;
            let ghost rest = state@->Unresolved_1;
            let next_potential_route = state.next_potential_route().unwrap();
            proof {
                assert(next_potential_route@ == p.extend(seq![rest[0]]));
            }
            let current_resolved_route = next_potential_route.get_parent_route().unwrap();
            proof {
                assert(current_resolved_route@.path =~= p.path);
                assert(current_resolved_route@ == p);
            }
            match self.cell_module_skeleton_table.get(&current_resolved_route.root) {
                None => {
                    state.into_name_not_found_error();
                },
                Some(mskt) => {
                    if !mskt.module_skeletons.contains_key(&current_resolved_route) {
                        proof {
                            assert(!skeleton_map(&mskt.module_skeletons).dom().contains(p));
                        }
                        state.into_name_not_found_error();
                    } else {
                        proof {
                            assert(skeleton_map(&mskt.module_skeletons).dom().contains(p));
                        }
                        match self.lookup_child_route(mskt, &current_resolved_route, &next_potential_route, view_route) {
                            LookUpCanonicalRouteResult::VisibilityDenial => {
                                state.into_visibility_denial_error();
                            },
                            LookUpCanonicalRouteResult::NameNotFound => {
                                state.into_name_not_found_error();
                            },
                            LookUpCanonicalRouteResult::Resolved(next_resolved_route) => {
                                proof {
                                    let r = next_resolved_route@;
                                    assert(rest.drop_first().len() == 0 ==> lookup_walk(g, r, rest.drop_first(), view_route@)
                                        == LookupView::Resolved(r));
                                    assert(lookup_walk(g, p, rest, view_route@) == lookup_walk(g, r, rest.drop_first(), view_route@));
                                }
                                state.resolve_next(next_resolved_route);
                            },
                        }
                    }
                },
            }
        }
        state.into_result()
    }
}

} // verus!
