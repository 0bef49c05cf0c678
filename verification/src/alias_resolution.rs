use vstd::prelude::*;
use std::collections::VecDeque;
use crate::cell::CellSignature;
use crate::def_signature::{ResolvedAliasSkeletonDefSignature, SignatureView, SkeletonDefSignature};
use crate::keyed::{KeyView, KeyedMap, KeyedSet};
use crate::lookup_canonical_route::{GrandModuleSkeletonTable, LookUpCanonicalRouteResult, LookupView, cell_tables, lookup_spec};
use crate::module_skeleton::{ModuleSkeleton, ModuleSkeletonTable, SkeletonTableView, insert_signature, signature_map, skeleton_map};
use crate::name_errors::{GlobalNameAliasResolutionError, GlobalNameAliasResolutionErrorKind};
use crate::route::{CanonicalRoute, Route, RouteView};

verus! {

/// What an alias or a definition route resolves to while the aliases of a
/// cell are worked out.
#[derive(Debug)]
pub enum ModuleAliasResolutionResult {
    Resolved(CanonicalRoute),
    Unresolved,
    VisibilityDenial,
    NameNotFound,
}

/// The abstract value of such a result.
pub enum ResolutionView {
    Resolved(RouteView),
    Unresolved,
    VisibilityDenial,
    NameNotFound,
}

impl View for ModuleAliasResolutionResult {
    type V = ResolutionView;

    open spec fn view(&self) -> ResolutionView {
        match self {
            ModuleAliasResolutionResult::Resolved(r) => ResolutionView::Resolved(r@),
            ModuleAliasResolutionResult::Unresolved => ResolutionView::Unresolved,
            ModuleAliasResolutionResult::VisibilityDenial => ResolutionView::VisibilityDenial,
            ModuleAliasResolutionResult::NameNotFound => ResolutionView::NameNotFound,
        }
    }
}

/// Where a route's resolution comes from: a route of the same cell or one
/// of another cell.
#[derive(Debug)]
pub enum ModuleAliasTo {
    InCell(Route),
    ExCell(Route),
}

/// The abstract value of such a source.
pub enum AliasToView {
    InCell(RouteView),
    ExCell(RouteView),
}

impl View for ModuleAliasTo {
    type V = AliasToView;

    open spec fn view(&self) -> AliasToView {
        match self {
            ModuleAliasTo::InCell(r) => AliasToView::InCell(r@),
            ModuleAliasTo::ExCell(r) => AliasToView::ExCell(r@),
        }
    }
}

/// The graph the aliases of a cell are resolved on: each route of the cell
/// depends on its parent module (direct edges) and each alias on the route
/// it names (alias edges); `indegrees` counts the edges into a route from
/// routes of the same cell that are not resolved yet.
#[derive(Debug)]
pub struct ModuleAliasGraph {
    pub nodes: KeyedMap<Route, ModuleAliasResolutionResult>,
    pub direct_lasts: KeyedMap<Route, ModuleAliasTo>,
    pub alias_lasts: KeyedMap<Route, ModuleAliasTo>,
    pub direct_nexts: KeyedMap<Route, Vec<Route>>,
    pub alias_nexts: KeyedMap<Route, Vec<Route>>,
    pub indegrees: KeyedMap<Route, usize>,
}

/// The abstract value of the graph.
pub struct GraphView {
    pub nodes: Map<RouteView, ResolutionView>,
    pub direct_lasts: Map<RouteView, AliasToView>,
    pub alias_lasts: Map<RouteView, AliasToView>,
    pub direct_nexts: Map<RouteView, Seq<RouteView>>,
    pub alias_nexts: Map<RouteView, Seq<RouteView>>,
    pub indegrees: Map<RouteView, int>,
}

/// A map of views by route.
pub open spec fn view_map<V: View>(m: &KeyedMap<Route, V>) -> Map<RouteView, V::V> {
    Map::new(|k: RouteView| m.has(k), |k: RouteView| m.at(k)@)
}

/// A map of lists of routes by route.
pub open spec fn list_map(m: &KeyedMap<Route, Vec<Route>>) -> Map<RouteView, Seq<RouteView>> {
    Map::new(|k: RouteView| m.has(k), |k: RouteView| m.at(k)@.map_values(|r: Route| r@))
}

/// A map of counts by route.
pub open spec fn count_map(m: &KeyedMap<Route, usize>) -> Map<RouteView, int> {
    Map::new(|k: RouteView| m.has(k), |k: RouteView| m.at(k) as int)
}

impl View for ModuleAliasGraph {
    type V = GraphView;

    open spec fn view(&self) -> GraphView {
        GraphView {
            nodes: view_map(&self.nodes),
            direct_lasts: view_map(&self.direct_lasts),
            alias_lasts: view_map(&self.alias_lasts),
            direct_nexts: list_map(&self.direct_nexts),
            alias_nexts: list_map(&self.alias_nexts),
            indegrees: count_map(&self.indegrees),
        }
    }
}

/// `m` with `r` appended to the list of `k`.
pub open spec fn push_next(m: Map<RouteView, Seq<RouteView>>, k: RouteView, r: RouteView) -> Map<RouteView, Seq<RouteView>> {
    m.insert(k, if m.dom().contains(k) { m[k] } else { Seq::empty() }.push(r))
}

/// `m` with a zero count for `k` where it has none.
pub open spec fn ensure_count(m: Map<RouteView, int>, k: RouteView) -> Map<RouteView, int> {
    if m.dom().contains(k) {
        m
    } else {
        m.insert(k, 0)
    }
}

/// The graph after the routes from `route` up to its cell root are added
/// as nodes, each with a direct edge from its parent.
pub open spec fn push_direct(g: GraphView, route: RouteView) -> GraphView
    decreases route.path.len(),
{
    if g.nodes.dom().contains(route) {
        g
    } else {
        let g1 = GraphView { nodes: g.nodes.insert(route, ResolutionView::Unresolved), ..g };
        if route.path.len() == 0 {
            g1
        } else {
            let parent = route.parent().unwrap();
            let ind = ensure_count(ensure_count(g1.indegrees, route), parent);
            let g2 = GraphView {
                indegrees: ind.insert(route, ind[route] + 1),
                direct_nexts: push_next(g1.direct_nexts, parent, route),
                direct_lasts: g1.direct_lasts.insert(route, AliasToView::InCell(parent)),
                ..g1
            };
            push_direct(g2, parent)
        }
    }
}

/// The graph after the alias at `def` naming `src` is added: both routes
/// (the named one only within the cell) as nodes, and an alias edge, which
/// counts only within the cell.
pub open spec fn push_alias(g: GraphView, def: RouteView, src: RouteView) -> GraphView {
    let same = src.root == def.root;
    let g1 = push_direct(g, def);
    let g2 = if same { push_direct(g1, src) } else { g1 };
    let ind1 = ensure_count(g2.indegrees, def);
    let ind2 = if same { ensure_count(ind1, src) } else { ind1 };
    let ind3 = if same { ind2.insert(def, ind2[def] + 1) } else { ind2 };
    GraphView {
        indegrees: ind3,
        alias_nexts: push_next(g2.alias_nexts, src, def),
        alias_lasts: g2.alias_lasts.insert(def, if same { AliasToView::InCell(src) } else { AliasToView::ExCell(src) }),
        ..g2
    }
}

/// Every route that has a count is a node.
pub open spec fn counts_are_nodes(g: GraphView) -> bool {
    forall|r: RouteView| #[trigger] g.indegrees.dom().contains(r) ==> g.nodes.dom().contains(r)
}

/// Every route that has a count is a node, but `x`, whose count is zero.
pub open spec fn counts_are_nodes_but(g: GraphView, x: RouteView) -> bool {
    forall|r: RouteView| #[trigger] g.indegrees.dom().contains(r) ==> g.nodes.dom().contains(r) || (r == x
        && g.indegrees[r] == 0)
}

/// A map of views with one more entry.
fn put_view<V: View>(m: &mut KeyedMap<Route, V>, k: Route, v: V)
    ensures
        view_map(final(m)) == view_map(old(m)).insert(k@, v@),
{
    let ghost kv = k@;
    let ghost vv = v@;
    m.insert(k, v);
    proof {
        assert forall|x: RouteView| #[trigger] m.has(x) == (old(m).has(x) || x == kv) by {
            assert(m.as_map().dom().contains(x) == m.has(x));
            assert(old(m).as_map().dom().contains(x) == old(m).has(x));
        }
        assert forall|x: RouteView| m.has(x) implies #[trigger] m.at(x)@ == if x == kv { vv } else { old(m).at(x)@ } by {
            assert(m.as_map()[x] == m.at(x));
            if x != kv {
                assert(old(m).as_map()[x] == old(m).at(x));
            }
        }
        assert(view_map(m) =~= view_map(old(m)).insert(kv, vv));
    }
}

/// A map of counts with `k` set to `v`.
fn put_count(m: &mut KeyedMap<Route, usize>, k: Route, v: usize)
    ensures
        count_map(final(m)) == count_map(old(m)).insert(k@, v as int),
{
    let ghost kv = k@;
    m.insert(k, v);
    proof {
        assert forall|x: RouteView| #[trigger] m.has(x) == (old(m).has(x) || x == kv) by {
            assert(m.as_map().dom().contains(x) == m.has(x));
            assert(old(m).as_map().dom().contains(x) == old(m).has(x));
        }
        assert forall|x: RouteView| m.has(x) implies #[trigger] m.at(x) == if x == kv { v } else { old(m).at(x) } by {
            assert(m.as_map()[x] == m.at(x));
            if x != kv {
                assert(old(m).as_map()[x] == old(m).at(x));
            }
        }
        assert(count_map(m) =~= count_map(old(m)).insert(kv, v as int));
    }
}

/// A map of lists of routes with `r` appended to the list of `k`.
fn push_route(m: &mut KeyedMap<Route, Vec<Route>>, k: Route, r: Route)
    ensures
        list_map(final(m)) == push_next(list_map(old(m)), k@, r@),
{
    let ghost kv = k@;
    let ghost rv = r@;
    proof {
        if old(m).has(kv) {
            assert(old(m).as_map()[kv] == old(m).at(kv));
        }
    }
    let mut list = match m.remove(&k) {
        Some(l) => l,
        None => Vec::new(),
    };
    let ghost mid = *m;
    let ghost before = list@;
    list.push(r);
    let ghost lv = list;
    m.insert(k, list);
    proof {
        assert forall|x: RouteView| #[trigger] m.has(x) == (old(m).has(x) || x == kv) by {
            assert(m.as_map().dom().contains(x) == m.has(x));
            assert(mid.as_map().dom().contains(x) == mid.has(x));
            assert(old(m).as_map().dom().contains(x) == old(m).has(x));
        }
        assert forall|x: RouteView| m.has(x) && x != kv implies #[trigger] m.at(x) == old(m).at(x) by {
            assert(m.as_map()[x] == m.at(x));
            assert(mid.as_map().dom().contains(x) == mid.has(x));
            assert(mid.as_map()[x] == mid.at(x));
            assert(old(m).as_map()[x] == old(m).at(x));
        }
        assert(m.as_map()[kv] == m.at(kv));
        assert(before == if old(m).has(kv) { old(m).at(kv)@ } else { Seq::<Route>::empty() });
        assert(lv@.map_values(|q: Route| q@) =~= before.map_values(|q: Route| q@).push(rv));
        if old(m).has(kv) {
            assert(list_map(old(m))[kv] == old(m).at(kv)@.map_values(|q: Route| q@));
        } else {
            assert(Seq::<Route>::empty().map_values(|q: Route| q@) =~= Seq::<RouteView>::empty());
        }
        assert(list_map(m) =~= push_next(list_map(old(m)), kv, rv));
    }
}

impl ModuleAliasGraph {
    /// A graph with nothing in it.
    pub fn new() -> (res: Self)
        ensures
            res@.nodes == Map::<RouteView, ResolutionView>::empty(),
            res@.direct_lasts == Map::<RouteView, AliasToView>::empty(),
            res@.alias_lasts == Map::<RouteView, AliasToView>::empty(),
            res@.direct_nexts == Map::<RouteView, Seq<RouteView>>::empty(),
            res@.alias_nexts == Map::<RouteView, Seq<RouteView>>::empty(),
            res@.indegrees == Map::<RouteView, int>::empty(),
    {
        let r = Self {
            nodes: KeyedMap::new(),
            direct_lasts: KeyedMap::new(),
            alias_lasts: KeyedMap::new(),
            direct_nexts: KeyedMap::new(),
            alias_nexts: KeyedMap::new(),
            indegrees: KeyedMap::new(),
        };
        proof {
            assert(r@.nodes =~= Map::<RouteView, ResolutionView>::empty());
            assert(r@.direct_lasts =~= Map::<RouteView, AliasToView>::empty());
            assert(r@.alias_lasts =~= Map::<RouteView, AliasToView>::empty());
            assert(r@.direct_nexts =~= Map::<RouteView, Seq<RouteView>>::empty());
            assert(r@.alias_nexts =~= Map::<RouteView, Seq<RouteView>>::empty());
            assert(r@.indegrees =~= Map::<RouteView, int>::empty());
        }
        r
    }

    /// The count of `route`.
    fn count_of(&self, route: &Route) -> (res: Option<usize>)
        ensures
            match res {
                Some(n) => self@.indegrees.dom().contains(route@) && self@.indegrees[route@] == n,
                None => !self@.indegrees.dom().contains(route@),
            },
    {
        match self.indegrees.get(route) {
            Some(n) => Some(*n),
            None => None,
        }
    }

    /// Gives `route` a zero count where it has none.
    fn ensure_count_exec(&mut self, route: &Route)
        ensures
            final(self)@ == (GraphView { indegrees: ensure_count(old(self)@.indegrees, route@), ..old(self)@ }),
    {
        if !self.indegrees.contains_key(route) {
            put_count(&mut self.indegrees, route.duplicate(), 0);
        } else {
            proof {
                assert(self@.indegrees == ensure_count(old(self)@.indegrees, route@));
            }
        }
    }

    /// Adds the routes from `route` up to its cell root as nodes, each with
    /// a direct edge from its parent, as `push_direct` says.
    pub fn push_from_direct(&mut self, route: Route)
        requires
            counts_are_nodes_but(old(self)@, route@),
        ensures
            final(self)@ == push_direct(old(self)@, route@),
            counts_are_nodes(final(self)@),
        decreases route@.path.len(),
    {
        if !self.nodes.contains_key(&route) {
            proof {
                assert(!old(self)@.nodes.dom().contains(route@));
                if old(self)@.indegrees.dom().contains(route@) {
                    assert(old(self)@.indegrees[route@] == 0);
                }
            }
            put_view(&mut self.nodes, route.duplicate(), ModuleAliasResolutionResult::Unresolved);
            proof {
                assert(self@.indegrees == old(self)@.indegrees);
            }
            match route.get_parent_route() {
                Some(parent_route) => {
                    self.ensure_count_exec(&route);
                    self.ensure_count_exec(&parent_route);
                    let n = self.count_of(&route).unwrap();
                    proof {
                        assert(n == 0);
                        assert(parent_route@ != route@);
                        if old(self)@.indegrees.dom().contains(parent_route@) {
                            assert(old(self)@.nodes.dom().contains(parent_route@));
                        }
                    }
                    put_count(&mut self.indegrees, route.duplicate(), n + 1);
                    push_route(&mut self.direct_nexts, parent_route.duplicate(), route.duplicate());
                    put_view(&mut self.direct_lasts, route.duplicate(), ModuleAliasTo::InCell(parent_route.duplicate()));
                    proof {
                        assert(parent_route@.path.len() < route@.path.len());
                    }
                    self.push_from_direct(parent_route);
                },
                None => {
                    proof {
                        assert forall|r: RouteView| #[trigger] self@.indegrees.dom().contains(r) implies self@.nodes.dom().contains(r) by {
                            assert(old(self)@.indegrees.dom().contains(r));
                        }
                    }
                },
            }
        } else {
            proof {
                assert(old(self)@.nodes.dom().contains(route@));
                assert(counts_are_nodes(self@));
            }
        }
    }
}

/// Adding the routes up from `r` leaves the nodes there were, and the
/// counts of those nodes, as they were, and makes `r` a node.
pub proof fn lemma_push_direct_keeps(g: GraphView, r: RouteView, x: RouteView)
    requires
        g.nodes.dom().contains(x),
    ensures
        push_direct(g, r).nodes.dom().contains(x),
        push_direct(g, r).nodes.dom().contains(r),
        g.indegrees.dom().contains(x) ==> push_direct(g, r).indegrees.dom().contains(x)
            && push_direct(g, r).indegrees[x] == g.indegrees[x],
        push_direct(g, r).indegrees.dom().contains(x) && !g.indegrees.dom().contains(x) ==> push_direct(g, r).indegrees[x] == 0,
    decreases r.path.len(),
{
    if !g.nodes.dom().contains(r) && r.path.len() > 0 {
        let parent = r.parent().unwrap();
        let g1 = GraphView { nodes: g.nodes.insert(r, ResolutionView::Unresolved), ..g };
        let ind = ensure_count(ensure_count(g1.indegrees, r), parent);
        let g2 = GraphView {
            indegrees: ind.insert(r, ind[r] + 1),
            direct_nexts: push_next(g1.direct_nexts, parent, r),
            direct_lasts: g1.direct_lasts.insert(r, AliasToView::InCell(parent)),
            ..g1
        };
        lemma_push_direct_keeps(g2, parent, x);
        lemma_push_direct_keeps(g2, parent, r);
        if g.nodes.dom().contains(parent) {
        }
    }
}

/// A route added anew with a parent gets a count of one.
pub proof fn lemma_push_direct_new(g: GraphView, r: RouteView)
    requires
        !g.nodes.dom().contains(r),
        counts_are_nodes_but(g, r),
    ensures
        push_direct(g, r).nodes.dom().contains(r),
        r.path.len() > 0 ==> push_direct(g, r).indegrees.dom().contains(r) && push_direct(g, r).indegrees[r] == 1,
        r.path.len() == 0 ==> push_direct(g, r).indegrees == g.indegrees,
{
    if r.path.len() > 0 {
        let parent = r.parent().unwrap();
        let g1 = GraphView { nodes: g.nodes.insert(r, ResolutionView::Unresolved), ..g };
        let ind = ensure_count(ensure_count(g1.indegrees, r), parent);
        if g.indegrees.dom().contains(r) {
            assert(g.indegrees[r] == 0);
        }
        let g2 = GraphView {
            indegrees: ind.insert(r, ind[r] + 1),
            direct_nexts: push_next(g1.direct_nexts, parent, r),
            direct_lasts: g1.direct_lasts.insert(r, AliasToView::InCell(parent)),
            ..g1
        };
        lemma_push_direct_keeps(g2, parent, r);
    }
}

impl ModuleAliasGraph {
    /// Adds the alias at `def_route` naming `source_route`, as `push_alias`
    /// says.  The count of `def_route` must leave room for one more.
    pub fn push_from_alias(&mut self, def_route: Route, source_route: Route)
        requires
            counts_are_nodes(old(self)@),
            old(self)@.indegrees.dom().contains(def_route@) ==> old(self)@.indegrees[def_route@] < usize::MAX,
        ensures
            final(self)@ == push_alias(old(self)@, def_route@, source_route@),
            counts_are_nodes(final(self)@),
    {
        let ghost g0 = self@;
        proof {
            if g0.nodes.dom().contains(def_route@) {
                lemma_push_direct_keeps(g0, def_route@, def_route@);
            } else {
                lemma_push_direct_new(g0, def_route@);
                if g0.indegrees.dom().contains(def_route@) {
                    assert(g0.nodes.dom().contains(def_route@));
                }
            }
        }
        self.push_from_direct(def_route.duplicate());
        let ghost g1 = self@;
        let same = source_route.root.same_as(&def_route.root);
        if same {
            proof {
                lemma_push_direct_keeps(g1, source_route@, def_route@);
            }
            self.push_from_direct(source_route.duplicate());
        }
        self.ensure_count_exec(&def_route);
        if same {
            self.ensure_count_exec(&source_route);
        }
        if same {
            let n = self.count_of(&def_route).unwrap();
            proof {
                assert(n < usize::MAX);
            }
            put_count(&mut self.indegrees, def_route.duplicate(), n + 1);
        }
        push_route(&mut self.alias_nexts, source_route.duplicate(), def_route.duplicate());
        if same {
            put_view(&mut self.alias_lasts, def_route, ModuleAliasTo::InCell(source_route));
        } else {
            put_view(&mut self.alias_lasts, def_route, ModuleAliasTo::ExCell(source_route));
        }
        proof {
            assert forall|r: RouteView| #[trigger] self@.indegrees.dom().contains(r) implies self@.nodes.dom().contains(r) by {
                if r != def_route@ && !(same && r == source_route@) {
                    assert(g1.indegrees.dom().contains(r) || (same && push_direct(g1, source_route@).indegrees.dom().contains(r)));
                }
                if same && r == source_route@ {
                    lemma_push_direct_keeps(g1, source_route@, def_route@);
                }
            }
        }
    }
}

/// Whether a route can be seen from a place, and where it leads.
#[derive(Debug)]
pub enum IsCanonicalRouteViewableResult {
    Viewable(CanonicalRoute),
    VisibilityDenial,
    NameNotFound,
}

/// The abstract value of such an outcome.
pub enum ViewableView {
    Viewable(RouteView),
    VisibilityDenial,
    NameNotFound,
}

impl View for IsCanonicalRouteViewableResult {
    type V = ViewableView;

    open spec fn view(&self) -> ViewableView {
        match self {
            IsCanonicalRouteViewableResult::Viewable(r) => ViewableView::Viewable(r@),
            IsCanonicalRouteViewableResult::VisibilityDenial => ViewableView::VisibilityDenial,
            IsCanonicalRouteViewableResult::NameNotFound => ViewableView::NameNotFound,
        }
    }
}

/// The state of a visibility check in progress: visible, still walking
/// from a visible prefix with names left, or failed.
pub enum IsCanonicalRouteViewableIntermediateState {
    Viewable(CanonicalRoute),
    InProcess(CanonicalRoute, VecDeque<String>),
    VisibilityDenial,
    NameNotFound,
}

/// The abstract value of a visibility check in progress.
pub enum ViewableStateView {
    Viewable(RouteView),
    InProcess(RouteView, Seq<Seq<char>>),
    VisibilityDenial,
    NameNotFound,
}

impl View for IsCanonicalRouteViewableIntermediateState {
    type V = ViewableStateView;

    open spec fn view(&self) -> ViewableStateView {
        match self {
            IsCanonicalRouteViewableIntermediateState::Viewable(r) => ViewableStateView::Viewable(r@),
            IsCanonicalRouteViewableIntermediateState::InProcess(r, q) => ViewableStateView::InProcess(r@, q@.map_values(|s: String| s@)),
            IsCanonicalRouteViewableIntermediateState::VisibilityDenial => ViewableStateView::VisibilityDenial,
            IsCanonicalRouteViewableIntermediateState::NameNotFound => ViewableStateView::NameNotFound,
        }
    }
}

impl IsCanonicalRouteViewableIntermediateState {
    /// A check of `route` about to start: visible for a cell root, and
    /// otherwise walking its path from the cell root.
    pub fn new_from_route(route: Route) -> (res: Self)
        ensures
            route@.path.len() == 0 ==> res@ == ViewableStateView::Viewable(route@),
            route@.path.len() > 0 ==> res@ == ViewableStateView::InProcess(
                RouteView { root: route@.root, path: Seq::empty() },
                route@.path,
            ),
    {
        if route.path.len() == 0 {
            IsCanonicalRouteViewableIntermediateState::Viewable(route)
        } else {
            let ghost p = route@.path;
            let Route { root, path } = route;
            let mut q: VecDeque<String> = VecDeque::new();
            let mut path = path;
            let n: usize = path.len();
            let mut i: usize = 0;
            while path.len() > 0
                invariant
                    n == p.len(),
                    i <= p.len(),
                    path.deep_view() == p.skip(i as int),
                    q@.map_values(|s: String| s@) == p.take(i as int),
                decreases path.len(),
            {
                let ghost before = path@;
                proof {
                    assert(before.map_values(|x: String| x@) =~= path.deep_view());
                }
                let s = path.remove(0);
                proof {
                    assert(path@ =~= before.subrange(1, before.len() as int));
                    assert(p.skip(i as int)[0] == s@);
                    assert(path.deep_view() =~= path@.map_values(|x: String| x@));
                    assert forall|j: int| 0 <= j < path@.len() implies path@[j]@ == p.skip(i + 1)[j] by {
                        assert(path@[j] == before[j + 1]);
                        assert(before.map_values(|x: String| x@)[j + 1] == p.skip(i as int)[j + 1]);
                    }
                    assert(path.deep_view() =~= p.skip(i + 1));
                    assert(p.take(i + 1) =~= p.take(i as int).push(s@));
                }
                q.push_back(s);
                proof {
                    assert(q@.map_values(|s: String| s@) =~= p.take(i + 1));
                }
                i = i + 1;
            }
            proof {
                assert(p.take(i as int) =~= p);
            }
            IsCanonicalRouteViewableIntermediateState::InProcess(CanonicalRoute::new(root), q)
        }
    }

    /// Whether the check has failed.
    pub fn is_error(&self) -> (res: bool)
        ensures
            res == (self@ is VisibilityDenial || self@ is NameNotFound),
    {
        match self {
            IsCanonicalRouteViewableIntermediateState::VisibilityDenial
            | IsCanonicalRouteViewableIntermediateState::NameNotFound => true,
            _ => false,
        }
    }

    /// The route the walk tries next: the resolved prefix with the next
    /// name; `None` unless the walk is in progress.
    pub fn next_potential_route(&self) -> (res: Option<CanonicalRoute>)
        requires
            self@ matches ViewableStateView::InProcess(_, rest) ==> rest.len() > 0,
        ensures
            match self@ {
                ViewableStateView::InProcess(prefix, rest) => res is Some && res.unwrap()@ == prefix.extend(seq![rest[0]]),
                _ => res is None,
            },
    {
        match self {
            IsCanonicalRouteViewableIntermediateState::InProcess(canonical_prefix_route, unresolved_route_fractions) => {
                let first = unresolved_route_fractions[0].clone();
                Some(Route::chain_one(canonical_prefix_route.duplicate(), first))
            },
            _ => None,
        }
    }

    /// The next name found visible as `new_resolved`: the walk goes on from
    /// there, or ends visible when no name is left.
    pub fn resolve_next(&mut self, new_resolved: CanonicalRoute)
        requires
            old(self)@ matches ViewableStateView::InProcess(_, rest) && rest.len() > 0,
        ensures
            ({
                let rest = old(self)@->InProcess_1.drop_first();
                final(self)@ == if rest.len() == 0 {
                    ViewableStateView::Viewable(new_resolved@)
                } else {
                    ViewableStateView::InProcess(new_resolved@, rest)
                }
            }),
    {
        let mut tmp = IsCanonicalRouteViewableIntermediateState::NameNotFound;
        std::mem::swap(&mut tmp, self);
        match tmp {
            IsCanonicalRouteViewableIntermediateState::InProcess(_, q) => {
                let ghost qv = q@.map_values(|s: String| s@);
                let mut q = q;
                let _ = q.pop_front();
                proof {
                    assert(q@.map_values(|s: String| s@) =~= qv.drop_first());
                }
                if q.len() == 0 {
                    *self = IsCanonicalRouteViewableIntermediateState::Viewable(new_resolved);
                } else {
                    *self = IsCanonicalRouteViewableIntermediateState::InProcess(new_resolved, q);
                }
            },
            _ => {},
        }
    }

    /// The check fails for want of visibility.
    pub fn into_visibility_denial_error(&mut self)
        ensures
            final(self)@ == ViewableStateView::VisibilityDenial,
    {
        *self = IsCanonicalRouteViewableIntermediateState::VisibilityDenial;
    }

    /// The check fails for want of the name.
    pub fn into_name_not_found_error(&mut self)
        ensures
            final(self)@ == ViewableStateView::NameNotFound,
    {
        *self = IsCanonicalRouteViewableIntermediateState::NameNotFound;
    }

    /// The outcome of a finished check.
    pub fn into_result(self) -> (res: IsCanonicalRouteViewableResult)
        requires
            !(self@ is InProcess),
        ensures
            res@ == match self@ {
                ViewableStateView::Viewable(r) => ViewableView::Viewable(r),
                ViewableStateView::VisibilityDenial => ViewableView::VisibilityDenial,
                _ => ViewableView::NameNotFound,
            },
    {
        match self {
            IsCanonicalRouteViewableIntermediateState::Viewable(r) => IsCanonicalRouteViewableResult::Viewable(r),
            IsCanonicalRouteViewableIntermediateState::VisibilityDenial => IsCanonicalRouteViewableResult::VisibilityDenial,
            _ => IsCanonicalRouteViewableResult::NameNotFound,
        }
    }
}

/// A lookup's outcome as a visibility outcome.
pub open spec fn from_lookup(l: crate::lookup_canonical_route::LookupView) -> ViewableView {
    match l {
        crate::lookup_canonical_route::LookupView::Resolved(r) => ViewableView::Viewable(r),
        crate::lookup_canonical_route::LookupView::VisibilityDenial => ViewableView::VisibilityDenial,
        crate::lookup_canonical_route::LookupView::NameNotFound => ViewableView::NameNotFound,
    }
}

/// Where the alias naming `aliased` leads, for the visibility check: a
/// route of another cell is looked up in the resolved tables `gt`; one of
/// this cell leads where the graph resolved it, which is checked again
/// (one level deeper) when it stays in the cell.
pub open spec fn alias_viewable(
    gt: Map<Seq<char>, SkeletonTableView>,
    cell: Seq<char>,
    mskt: SkeletonTableView,
    gr: GraphView,
    msk_route: RouteView,
    aliased: RouteView,
    depth: nat,
) -> ViewableView
    decreases depth, 0nat, 0nat,
{
    if aliased.root != cell {
        from_lookup(crate::lookup_canonical_route::lookup_spec(gt, aliased, msk_route))
    } else if !gr.nodes.dom().contains(aliased) {
        ViewableView::NameNotFound
    } else {
        match gr.nodes[aliased] {
            ResolutionView::Resolved(rr) => if rr.root != cell {
                from_lookup(crate::lookup_canonical_route::lookup_spec(gt, rr, msk_route))
            } else if depth == 0 {
                ViewableView::NameNotFound
            } else {
                viewable_spec(gt, cell, mskt, gr, rr, msk_route, (depth - 1) as nat)
            },
            ResolutionView::VisibilityDenial => ViewableView::VisibilityDenial,
            _ => ViewableView::NameNotFound,
        }
    }
}

/// Whether the name `child` of the module `msk` at `msk_route` can be
/// seen from `view_route`: exported names always, internal ones only from
/// inside the module; aliases lead where `alias_viewable` says.
pub open spec fn child_viewable(
    gt: Map<Seq<char>, SkeletonTableView>,
    cell: Seq<char>,
    mskt: SkeletonTableView,
    gr: GraphView,
    msk: crate::module_skeleton::SkeletonView,
    msk_route: RouteView,
    child: RouteView,
    view_route: RouteView,
    depth: nat,
) -> ViewableView
    decreases depth, 1nat, 0nat,
{
    if msk.exported_submodules.contains(child) || msk.exported_concrete_definitions.contains(child) {
        ViewableView::Viewable(child)
    } else if msk.exported_alias_definitions.dom().contains(child) {
        alias_viewable(gt, cell, mskt, gr, msk_route, msk.exported_alias_definitions[child], depth)
    } else if msk.internal_submodules.contains(child) || msk.internal_concrete_definitions.contains(child) {
        if msk_route.is_prefix_of(view_route) {
            ViewableView::Viewable(child)
        } else {
            ViewableView::VisibilityDenial
        }
    } else if msk.internal_alias_definitions.dom().contains(child) {
        if msk_route.is_prefix_of(view_route) {
            alias_viewable(gt, cell, mskt, gr, msk_route, msk.internal_alias_definitions[child], depth)
        } else {
            ViewableView::VisibilityDenial
        }
    } else {
        ViewableView::NameNotFound
    }
}

/// A submodule or concrete definition that a module exports can be seen
/// from every route.
pub proof fn lemma_exported_child_viewable(
    gt: Map<Seq<char>, SkeletonTableView>,
    cell: Seq<char>,
    mskt: SkeletonTableView,
    gr: GraphView,
    msk: crate::module_skeleton::SkeletonView,
    msk_route: RouteView,
    child: RouteView,
    view_route: RouteView,
    depth: nat,
)
    requires
        msk.exported_submodules.contains(child) || msk.exported_concrete_definitions.contains(child),
    ensures
        child_viewable(gt, cell, mskt, gr, msk, msk_route, child, view_route, depth) == ViewableView::Viewable(child),
{
}

/// A submodule or concrete definition that a module holds without
/// exporting it can be seen exactly from inside that module: from a route
/// that has the module's route as a prefix it is viewable, from any other
/// route the visibility check refuses it.
pub proof fn lemma_internal_child_viewable(
    gt: Map<Seq<char>, SkeletonTableView>,
    cell: Seq<char>,
    mskt: SkeletonTableView,
    gr: GraphView,
    msk: crate::module_skeleton::SkeletonView,
    msk_route: RouteView,
    child: RouteView,
    view_route: RouteView,
    depth: nat,
)
    requires
        msk.internal_submodules.contains(child) || msk.internal_concrete_definitions.contains(child),
        !msk.exported_submodules.contains(child),
        !msk.exported_concrete_definitions.contains(child),
        !msk.exported_alias_definitions.dom().contains(child),
    ensures
        ({
            let inside = msk_route.root == view_route.root && msk_route.path.len() <= view_route.path.len()
                && view_route.path.take(msk_route.path.len() as int) == msk_route.path;
            &&& inside ==> child_viewable(gt, cell, mskt, gr, msk, msk_route, child, view_route, depth) == ViewableView::Viewable(child)
            &&& !inside ==> child_viewable(gt, cell, mskt, gr, msk, msk_route, child, view_route, depth) == ViewableView::VisibilityDenial
        }),
{
}

/// Whether the names `rest` can be seen one at a time from the visible
/// module route `prefix`, seen from `view_route`, with the modules of
/// `mskt`.
pub open spec fn viewable_walk(
    gt: Map<Seq<char>, SkeletonTableView>,
    cell: Seq<char>,
    mskt: SkeletonTableView,
    gr: GraphView,
    prefix: RouteView,
    rest: Seq<Seq<char>>,
    view_route: RouteView,
    depth: nat,
) -> ViewableView
    decreases depth, 2nat, rest.len(),
{
    if rest.len() == 0 {
        ViewableView::Viewable(prefix)
    } else if !mskt.module_skeletons.dom().contains(prefix) {
        ViewableView::NameNotFound
    } else {
        match child_viewable(gt, cell, mskt, gr, mskt.module_skeletons[prefix], prefix, prefix.extend(seq![rest[0]]),
            view_route, depth) {
            ViewableView::Viewable(r) => viewable_walk(gt, cell, mskt, gr, r, rest.drop_first(), view_route, depth),
            other => other,
        }
    }
}

/// Whether `route` can be seen from `view_route`, walking its path from
/// its cell root through the modules of `mskt`; aliases within the cell
/// are followed at most `depth` levels deep.
pub open spec fn viewable_spec(
    gt: Map<Seq<char>, SkeletonTableView>,
    cell: Seq<char>,
    mskt: SkeletonTableView,
    gr: GraphView,
    route: RouteView,
    view_route: RouteView,
    depth: nat,
) -> ViewableView
    decreases depth, 3nat, 0nat,
{
    viewable_walk(gt, cell, mskt, gr, RouteView { root: route.root, path: Seq::empty() }, route.path, view_route, depth)
}

/// The outcome a visibility check in state `st` comes to.
pub open spec fn viewable_state_result(
    gt: Map<Seq<char>, SkeletonTableView>,
    cell: Seq<char>,
    mskt: SkeletonTableView,
    gr: GraphView,
    st: ViewableStateView,
    view_route: RouteView,
    depth: nat,
) -> ViewableView {
    match st {
        ViewableStateView::Viewable(r) => ViewableView::Viewable(r),
        ViewableStateView::InProcess(p, rest) => viewable_walk(gt, cell, mskt, gr, p, rest, view_route, depth),
        ViewableStateView::VisibilityDenial => ViewableView::VisibilityDenial,
        ViewableStateView::NameNotFound => ViewableView::NameNotFound,
    }
}

impl IsCanonicalRouteViewableIntermediateState {
    /// Whether the walk is still in progress.
    fn in_progress(&self) -> (res: bool)
        ensures
            res == (self@ is InProcess),
    {
        match self {
            IsCanonicalRouteViewableIntermediateState::InProcess(_, _) => true,
            _ => false,
        }
    }
}

/// A lookup's outcome as a visibility outcome.
fn viewable_from_lookup(l: LookUpCanonicalRouteResult) -> (res: IsCanonicalRouteViewableResult)
    ensures
        res@ == from_lookup(l@),
{
    match l {
        LookUpCanonicalRouteResult::Resolved(r) => IsCanonicalRouteViewableResult::Viewable(r),
        LookUpCanonicalRouteResult::VisibilityDenial => IsCanonicalRouteViewableResult::VisibilityDenial,
        LookUpCanonicalRouteResult::NameNotFound => IsCanonicalRouteViewableResult::NameNotFound,
    }
}

impl GrandModuleSkeletonTable {
    /// Where the alias naming `aliased_route` leads, as `alias_viewable`
    /// says.
    fn alias_viewable_exec(
        &self,
        cell_sign: &CellSignature,
        mskt: &ModuleSkeletonTable,
        graph: &ModuleAliasGraph,
        msk_route: &CanonicalRoute,
        aliased_route: &Route,
        depth: usize,
    ) -> (res: IsCanonicalRouteViewableResult)
        ensures
            res@ == alias_viewable(cell_tables(&self.cell_module_skeleton_table), cell_sign@, mskt@, graph@, msk_route@,
                aliased_route@, depth as nat),
        decreases depth, 0nat,
    {
        if !aliased_route.root.same_as(cell_sign) {
            return viewable_from_lookup(self.lookup_canonical_route(aliased_route, msk_route));
        }
        match graph.nodes.get(aliased_route) {
            None => IsCanonicalRouteViewableResult::NameNotFound,
            Some(node) => {
                proof {
                    assert(graph@.nodes[aliased_route@] == node@);
                }
                match node {
                    ModuleAliasResolutionResult::Resolved(resolved_aliased_route) => {
                        if !resolved_aliased_route.root.same_as(cell_sign) {
                            viewable_from_lookup(self.lookup_canonical_route(resolved_aliased_route, msk_route))
                        } else if depth == 0 {
                            IsCanonicalRouteViewableResult::NameNotFound
                        } else {
                            self.viewable_at_depth(cell_sign, mskt, graph, resolved_aliased_route, msk_route, depth - 1)
                        }
                    },
                    ModuleAliasResolutionResult::VisibilityDenial => IsCanonicalRouteViewableResult::VisibilityDenial,
                    _ => IsCanonicalRouteViewableResult::NameNotFound,
                }
            },
        }
    }

    /// Whether the name `child_route` of the module `msk` at `msk_route`
    /// can be seen from `view_route`, as `child_viewable` says.
    fn is_child_route_viewable(
        &self,
        cell_sign: &CellSignature,
        mskt: &ModuleSkeletonTable,
        msk: &ModuleSkeleton,
        graph: &ModuleAliasGraph,
        msk_route: &CanonicalRoute,
        child_route: &Route,
        view_route: &Route,
        depth: usize,
    ) -> (res: IsCanonicalRouteViewableResult)
        ensures
            res@ == child_viewable(cell_tables(&self.cell_module_skeleton_table), cell_sign@, mskt@, graph@, msk@,
                msk_route@, child_route@, view_route@, depth as nat),
        decreases depth, 1nat,
    {
        if msk.exported_submodules.contains(child_route) || msk.exported_concrete_definitions.contains(child_route) {
            return IsCanonicalRouteViewableResult::Viewable(child_route.duplicate());
        }
        match msk.exported_alias_definitions.get(child_route) {
            Some(aliased_route) => {
                return self.alias_viewable_exec(cell_sign, mskt, graph, msk_route, aliased_route, depth);
            },
            None => {},
        }
        if msk.internal_submodules.contains(child_route) || msk.internal_concrete_definitions.contains(child_route) {
            return if Route::is_ancestor(msk_route, view_route) {
                IsCanonicalRouteViewableResult::Viewable(child_route.duplicate())
            } else {
                IsCanonicalRouteViewableResult::VisibilityDenial
            };
        }
        match msk.internal_alias_definitions.get(child_route) {
            Some(aliased_route) => {
                if Route::is_ancestor(msk_route, view_route) {
                    self.alias_viewable_exec(cell_sign, mskt, graph, msk_route, aliased_route, depth)
                } else {
                    IsCanonicalRouteViewableResult::VisibilityDenial
                }
            },
            None => IsCanonicalRouteViewableResult::NameNotFound,
        }
    }

    /// Whether `route` can be seen from `view_route`, as `viewable_spec`
    /// says with aliases followed at most `depth` levels deep.
    fn viewable_at_depth(
        &self,
        cell_sign: &CellSignature,
        mskt: &ModuleSkeletonTable,
        graph: &ModuleAliasGraph,
        route: &Route,
        view_route: &CanonicalRoute,
        depth: usize,
    ) -> (res: IsCanonicalRouteViewableResult)
        ensures
            res@ == viewable_spec(cell_tables(&self.cell_module_skeleton_table), cell_sign@, mskt@, graph@, route@,
                view_route@, depth as nat),
        decreases depth, 3nat,
    {
        let ghost gt = cell_tables(&self.cell_module_skeleton_table);
        let ghost root0 = RouteView { root: route@.root, path: Seq::empty() };
        let mut state = IsCanonicalRouteViewableIntermediateState::new_from_route(route.duplicate());
        proof {
            if route@.path.len() == 0 {
                assert(route@.path =~= Seq::<Seq<char>>::empty());
                assert(route@ == root0);
            }
        }
        while state.in_progress()
            invariant
                gt == cell_tables(&self.cell_module_skeleton_table),
                viewable_state_result(gt, cell_sign@, mskt@, graph@, state@, view_route@, depth as nat)
                    == viewable_walk(gt, cell_sign@, mskt@, graph@, root0, route@.path, view_route@, depth as nat),
                state@ matches ViewableStateView::InProcess(p, rest) ==> rest.len() > 0,
            decreases (match state@ {
                ViewableStateView::InProcess(_, rest) => rest.len(),
                _ => 0,
            }),
        {
            let ghost p = state@->InProcess_0;
            let ghost rest = state@->InProcess_1;
            let next_potential_route = state.next_potential_route().unwrap();
            proof {
                assert(next_potential_route@ == p.extend(seq![rest[0]]));
            }
            let current_resolved_route = next_potential_route.get_parent_route().unwrap();
            proof {
                assert(current_resolved_route@.path =~= p.path);
                assert(current_resolved_route@ == p);
            }
            match mskt.module_skeletons.get(&current_resolved_route) {
                None => {
                    proof {
                        assert(!skeleton_map(&mskt.module_skeletons).dom().contains(p));
                    }
                    state.into_name_not_found_error();
                },
                Some(msk) => {
                    proof {
                        assert(skeleton_map(&mskt.module_skeletons).dom().contains(p));
                        assert(mskt@.module_skeletons[p] == msk@);
                    }
                    match self.is_child_route_viewable(cell_sign, mskt, msk, graph, &current_resolved_route,
                        &next_potential_route, view_route, depth) {
                        IsCanonicalRouteViewableResult::VisibilityDenial => {
                            state.into_visibility_denial_error();
                        },
                        IsCanonicalRouteViewableResult::NameNotFound => {
                            state.into_name_not_found_error();
                        },
                        IsCanonicalRouteViewableResult::Viewable(next_resolved_route) => {
                            proof {
                                let r = next_resolved_route@;
                                assert(rest.drop_first().len() == 0 ==> viewable_walk(gt, cell_sign@, mskt@, graph@, r,
                                    rest.drop_first(), view_route@, depth as nat) == ViewableView::Viewable(r));
                            }
                            state.resolve_next(next_resolved_route);
                        },
                    }
                },
            }
        }
        state.into_result()
    }

    /// Whether `route` can be seen from `view_route` while the aliases of the
    /// cell `cell_sign` (tables `mskt`, graph `graph`) are resolved, as
    /// `viewable_spec` says; aliases within the cell are followed as deep as
    /// a `usize` counts.
    pub fn is_canonical_route_viewable(
        &self,
        cell_sign: &CellSignature,
        mskt: &ModuleSkeletonTable,
        graph: &ModuleAliasGraph,
        route: &Route,
        view_route: &CanonicalRoute,
    ) -> (res: IsCanonicalRouteViewableResult)
        ensures
            res@ == viewable_spec(cell_tables(&self.cell_module_skeleton_table), cell_sign@, mskt@, graph@, route@,
                view_route@, usize::MAX as nat),
    {
        self.viewable_at_depth(cell_sign, mskt, graph, route, view_route, usize::MAX)
    }
}

/// The parent module of a definition route (the route itself for a cell
/// root).
pub open spec fn parent_or_self(r: RouteView) -> RouteView {
    match r.parent() {
        Some(p) => p,
        None => r,
    }
}

/// The aliases among the signatures `keys` of `defs` that are still
/// unresolved and that `kept` does not keep, in order.
pub open spec fn dropped_aliases(keys: Seq<RouteView>, defs: Map<RouteView, SignatureView>, kept: Map<RouteView, SignatureView>) -> Seq<RouteView>
    decreases keys.len(),
{
    if keys.len() == 0 {
        Seq::empty()
    } else {
        let rest = dropped_aliases(keys.drop_last(), defs, kept);
        let r = keys.last();
        if defs[r] is UnresolvedAlias && !kept.dom().contains(r) {
            rest.push(r)
        } else {
            rest
        }
    }
}

/// Whether the signature `new` kept for the route `r` agrees with the
/// signature `old` it had: a concrete one unchanged, an unresolved alias
/// resolved to a route whose resolved signature (in this cell's tables
/// `defs`, or else in the resolved tables `gt`) gives its kind.
pub open spec fn kept_signature(
    gt: Map<Seq<char>, SkeletonTableView>,
    cell: Seq<char>,
    defs: Map<RouteView, SignatureView>,
    old_sig: SignatureView,
    new_sig: SignatureView,
) -> bool {
    match old_sig {
        SignatureView::Concrete { .. } => new_sig == old_sig,
        SignatureView::UnresolvedAlias { is_exported, position, def_route, .. } => match new_sig {
            SignatureView::ResolvedAlias { is_exported: e2, position: p2, kind, def_route: d2, resolved_route } => {
                let target = if resolved_route.root == cell {
                    defs
                } else {
                    gt[resolved_route.root].def_signatures
                };
                &&& e2 == is_exported
                &&& p2 == position
                &&& d2 == def_route
                &&& (resolved_route.root != cell ==> gt.dom().contains(resolved_route.root))
                &&& target.dom().contains(resolved_route)
                &&& (target[resolved_route] is Concrete || target[resolved_route] is ResolvedAlias)
                &&& kind == match target[resolved_route] {
                    SignatureView::Concrete { kind, .. } => kind,
                    SignatureView::ResolvedAlias { kind, .. } => kind,
                    _ => kind,
                }
            },
            _ => false,
        },
        _ => false,
    }
}

/// Whether the signature `new` kept for a route has the form of the
/// signature `old` it had: a concrete one unchanged, an unresolved alias
/// resolved, with the same export, position and defining route.
pub open spec fn kept_form(old_sig: SignatureView, new_sig: SignatureView) -> bool {
    match old_sig {
        SignatureView::Concrete { .. } => new_sig == old_sig,
        SignatureView::UnresolvedAlias { is_exported, position, def_route, .. } => match new_sig {
            SignatureView::ResolvedAlias { is_exported: e2, position: p2, def_route: d2, .. } => e2 == is_exported
                && p2 == position && d2 == def_route,
            _ => false,
        },
        _ => false,
    }
}

/// A signature kept as `kept_signature` says has the form of the old one.
pub proof fn lemma_kept_form(
    gt: Map<Seq<char>, SkeletonTableView>,
    cell: Seq<char>,
    defs: Map<RouteView, SignatureView>,
    old_sig: SignatureView,
    new_sig: SignatureView,
)
    requires
        kept_signature(gt, cell, defs, old_sig, new_sig),
    ensures
        kept_form(old_sig, new_sig),
{
}

/// Whether `e` is the error reported for the unresolved alias `u`.
pub open spec fn alias_error_for(e: crate::name_errors::NameErrorView, u: SignatureView) -> bool {
    match u {
        SignatureView::UnresolvedAlias { position, def_route, .. } => {
            &&& (e.0 == GlobalNameAliasResolutionErrorKind::CircularAlias
                || e.0 == GlobalNameAliasResolutionErrorKind::VisibilityDenied
                || e.0 == GlobalNameAliasResolutionErrorKind::AliasNameNotFound)
            &&& e.1 == parent_or_self(def_route)
            &&& e.2 == Ok::<RouteView, Seq<Seq<char>>>(def_route)
            &&& e.3 == position
        },
        _ => false,
    }
}

/// The views of the errors `v`.
pub open spec fn error_views(v: Seq<GlobalNameAliasResolutionError>) -> Seq<crate::name_errors::NameErrorView> {
    v.map_values(|e: GlobalNameAliasResolutionError| e@)
}

/// What the graph node `nodes` holds for `r`, if any.
pub open spec fn node_at(nodes: Map<RouteView, ResolutionView>, r: RouteView) -> Option<ResolutionView> {
    if nodes.dom().contains(r) {
        Some(nodes[r])
    } else {
        None
    }
}

/// What an unresolved alias comes to from what its graph node resolved to
/// (`node`): the route it resolved to, where the signature there (in this
/// cell's signatures `defs`, or else in the resolved tables `gt`) is
/// resolved; otherwise the error: circular where the node stayed
/// unresolved, visibility denied where it was denied, and name not found
/// in every other case.
pub open spec fn alias_outcome(
    gt: Map<Seq<char>, SkeletonTableView>,
    cell: Seq<char>,
    defs: Map<RouteView, SignatureView>,
    node: Option<ResolutionView>,
) -> Result<RouteView, GlobalNameAliasResolutionErrorKind> {
    match node {
        Some(ResolutionView::Resolved(rr)) => {
            let found = if rr.root == cell {
                defs.dom().contains(rr)
            } else {
                gt.dom().contains(rr.root) && gt[rr.root].def_signatures.dom().contains(rr)
            };
            let target = if rr.root == cell {
                defs[rr]
            } else {
                gt[rr.root].def_signatures[rr]
            };
            if found && (target is Concrete || target is ResolvedAlias) {
                Ok(rr)
            } else {
                Err(GlobalNameAliasResolutionErrorKind::AliasNameNotFound)
            }
        },
        Some(ResolutionView::Unresolved) => Err(GlobalNameAliasResolutionErrorKind::CircularAlias),
        Some(ResolutionView::VisibilityDenial) => Err(GlobalNameAliasResolutionErrorKind::VisibilityDenied),
        _ => Err(GlobalNameAliasResolutionErrorKind::AliasNameNotFound),
    }
}

/// Whether the unresolved alias at `r` is kept in `kept` exactly where
/// its outcome (see `alias_outcome`) is a route, and then as resolved to
/// that route.
pub open spec fn alias_kept(
    gt: Map<Seq<char>, SkeletonTableView>,
    cell: Seq<char>,
    defs: Map<RouteView, SignatureView>,
    nodes: Map<RouteView, ResolutionView>,
    r: RouteView,
    kept: Map<RouteView, SignatureView>,
) -> bool {
    match alias_outcome(gt, cell, defs, node_at(nodes, r)) {
        Ok(rr) => kept.dom().contains(r) && (kept[r] matches SignatureView::ResolvedAlias { resolved_route, .. } && resolved_route
            == rr),
        Err(_) => !kept.dom().contains(r),
    }
}

/// Whether the signatures `kept` and the errors `errs` are what resolving
/// the signatures `defs` (keys in order `keys`) of the cell gives, with the
/// graph nodes `nodes`: concrete signatures kept, each unresolved alias
/// kept or dropped by its outcome, nothing else kept, and one error per
/// dropped alias, in order, of the kind its outcome gives.
pub open spec fn signatures_resolved(
    gt: Map<Seq<char>, SkeletonTableView>,
    cell: Seq<char>,
    keys: Seq<RouteView>,
    defs: Map<RouteView, SignatureView>,
    nodes: Map<RouteView, ResolutionView>,
    kept: Map<RouteView, SignatureView>,
    errs: Seq<crate::name_errors::NameErrorView>,
) -> bool {
    let dropped = dropped_aliases(keys, defs, kept);
    &&& forall|r: RouteView| #[trigger] defs.dom().contains(r) && defs[r] is Concrete ==> kept.dom().contains(r) && kept[r]
        == defs[r]
    &&& forall|r: RouteView| #[trigger] kept.dom().contains(r) ==> defs.dom().contains(r) && kept_signature(
        gt,
        cell,
        defs,
        defs[r],
        kept[r],
    )
    &&& forall|r: RouteView| #[trigger] defs.dom().contains(r) && defs[r] is UnresolvedAlias ==> alias_kept(gt, cell, defs, nodes, r, kept)
    &&& errs.len() == dropped.len()
    &&& forall|j: int| 0 <= j < dropped.len() ==> alias_error_for(#[trigger] errs[j], defs[dropped[j]]) && alias_outcome(
        gt,
        cell,
        defs,
        node_at(nodes, dropped[j]),
    ) == Err::<RouteView, GlobalNameAliasResolutionErrorKind>(errs[j].0)
}

/// What the map `m` holds for `k`, if anything.
pub open spec fn entry<V>(m: Map<RouteView, V>, k: RouteView) -> Option<V> {
    if m.dom().contains(k) {
        Some(m[k])
    } else {
        None
    }
}

/// A lookup's outcome as a node's.
pub open spec fn node_from_lookup(l: LookupView) -> ResolutionView {
    match l {
        LookupView::Resolved(r) => ResolutionView::Resolved(r),
        LookupView::VisibilityDenial => ResolutionView::VisibilityDenial,
        LookupView::NameNotFound => ResolutionView::NameNotFound,
    }
}

/// A visibility check's outcome as a node's, `ok` where it is viewable.
pub open spec fn from_viewable(v: ViewableView, ok: RouteView) -> ResolutionView {
    match v {
        ViewableView::Viewable(_) => ResolutionView::Resolved(ok),
        ViewableView::VisibilityDenial => ResolutionView::VisibilityDenial,
        ViewableView::NameNotFound => ResolutionView::NameNotFound,
    }
}

/// What the route `route` of the cell `cell` (tables `mt`) resolves to,
/// in the alias graph `g`, against the resolved tables `gt`: a concrete
/// definition to its own route; a route whose parent module resolved, to
/// the name under that module (a definition of this cell's module there,
/// or what a lookup from the parent finds in another cell); an alias, to
/// the route it names once that is viewable from the alias's module.
/// A denial of the parent or of the named route is a denial; anything
/// else is not found.
pub open spec fn resolve_spec(
    gt: Map<Seq<char>, SkeletonTableView>,
    cell: Seq<char>,
    mt: SkeletonTableView,
    g: GraphView,
    route: RouteView,
) -> ResolutionView {
    if mt.def_signatures.dom().contains(route) && mt.def_signatures[route] is Concrete {
        ResolutionView::Resolved(mt.def_signatures[route]->Concrete_def_route)
    } else {
        match (entry(g.direct_lasts, route), entry(g.alias_lasts, route)) {
            (Some(AliasToView::InCell(d)), None) => match entry(g.nodes, d) {
                Some(ResolutionView::Resolved(dr)) => {
                    let this = dr.extend(seq![route.last_name()]);
                    if cell == dr.root {
                        if mt.module_skeletons.dom().contains(dr) && mt.module_skeletons[dr].has_concrete(this) {
                            ResolutionView::Resolved(this)
                        } else {
                            ResolutionView::NameNotFound
                        }
                    } else {
                        node_from_lookup(lookup_spec(gt, this, dr))
                    }
                },
                Some(ResolutionView::VisibilityDenial) => ResolutionView::VisibilityDenial,
                _ => ResolutionView::NameNotFound,
            },
            (Some(AliasToView::InCell(d)), Some(AliasToView::InCell(a))) => {
                let direct = entry(g.nodes, d);
                let alias = entry(g.nodes, a);
                if direct == Some(ResolutionView::NameNotFound) || alias == Some(ResolutionView::NameNotFound) {
                    ResolutionView::NameNotFound
                } else if direct == Some(ResolutionView::VisibilityDenial) || alias == Some(ResolutionView::VisibilityDenial) {
                    ResolutionView::VisibilityDenial
                } else {
                    match (direct, alias) {
                        (Some(ResolutionView::Resolved(dr)), Some(ResolutionView::Resolved(ar))) => {
                            if dr.extend(seq![route.last_name()]) != route {
                                ResolutionView::NameNotFound
                            } else {
                                from_viewable(viewable_spec(gt, cell, mt, g, a, dr, usize::MAX as nat), ar)
                            }
                        },
                        _ => ResolutionView::NameNotFound,
                    }
                }
            },
            (Some(AliasToView::InCell(d)), Some(AliasToView::ExCell(a))) => {
                let direct = entry(g.nodes, d);
                let alias = lookup_spec(gt, a, d);
                if direct == Some(ResolutionView::NameNotFound) || alias == LookupView::NameNotFound {
                    ResolutionView::NameNotFound
                } else if direct == Some(ResolutionView::VisibilityDenial) || alias == LookupView::VisibilityDenial {
                    ResolutionView::VisibilityDenial
                } else {
                    match (direct, alias) {
                        (Some(ResolutionView::Resolved(dr)), LookupView::Resolved(ar)) => {
                            if dr.extend(seq![route.last_name()]) != route {
                                ResolutionView::NameNotFound
                            } else if gt.dom().contains(a.root) {
                                from_viewable(viewable_spec(gt, cell, gt[a.root], g, a, dr, usize::MAX as nat), ar)
                            } else {
                                ResolutionView::NameNotFound
                            }
                        },
                        _ => ResolutionView::NameNotFound,
                    }
                }
            },
            _ => ResolutionView::NameNotFound,
        }
    }
}

/// The routes of `v`, by view.
pub open spec fn route_views(v: Seq<Route>) -> Seq<RouteView> {
    v.map_values(|r: Route| r@)
}

/// The routes among `ks` whose count in `vs` (by entry) is zero, in order.
pub open spec fn zero_queue(ks: Seq<RouteView>, vs: Seq<usize>) -> Seq<RouteView>
    decreases ks.len(),
{
    if ks.len() == 0 || vs.len() == 0 {
        Seq::empty()
    } else {
        zero_queue(ks.drop_last(), vs.drop_last()) + if vs.last() == 0 {
            seq![ks.last()]
        } else {
            Seq::<RouteView>::empty()
        }
    }
}

/// The routes that depend on `r` in `g`: those under it, then the aliases
/// naming it.
pub open spec fn next_routes(g: GraphView, r: RouteView) -> Seq<RouteView> {
    (if g.direct_nexts.dom().contains(r) {
        g.direct_nexts[r]
    } else {
        Seq::empty()
    }) + (if g.alias_nexts.dom().contains(r) {
        g.alias_nexts[r]
    } else {
        Seq::empty()
    })
}

/// The counts `ind` and the queue `q` after each route of `ns` in turn has
/// its count lowered by one where it is above zero, a route joining the
/// queue when its count comes to zero.
pub open spec fn release(ind: Map<RouteView, int>, q: Seq<RouteView>, ns: Seq<RouteView>) -> (Map<RouteView, int>, Seq<RouteView>)
    decreases ns.len(),
{
    if ns.len() == 0 {
        (ind, q)
    } else {
        let (i2, q2) = release(ind, q, ns.drop_last());
        let x = ns.last();
        if i2.dom().contains(x) && i2[x] > 0 {
            (i2.insert(x, i2[x] - 1), if i2[x] - 1 == 0 {
                q2.push(x)
            } else {
                q2
            })
        } else {
            (i2, q2)
        }
    }
}

/// The alias graph `g` of the cell `cell` (tables `mt`) after its routes
/// are resolved from the queue `q` on, for at most `fuel` routes: the
/// first route of the queue is resolved (see `resolve_spec`) and the routes
/// that depend on it released (see `release`), until the queue is empty.
pub open spec fn walk(
    gt: Map<Seq<char>, SkeletonTableView>,
    cell: Seq<char>,
    mt: SkeletonTableView,
    g: GraphView,
    q: Seq<RouteView>,
    fuel: nat,
) -> GraphView
    decreases fuel,
{
    if fuel == 0 || q.len() == 0 {
        g
    } else {
        let r = q[0];
        let g1 = GraphView { nodes: g.nodes.insert(r, resolve_spec(gt, cell, mt, g, r)), ..g };
        let (ind, q2) = release(g1.indegrees, q.drop_first(), next_routes(g1, r));
        walk(gt, cell, mt, GraphView { indegrees: ind, ..g1 }, q2, (fuel - 1) as nat)
    }
}

/// What the routes of the alias graph `g` of the cell `cell` (tables `mt`)
/// resolve to: the graph walked from the routes nothing points to, in the
/// order the graph holds its counts (see `walk`).
pub open spec fn resolution_nodes(
    gt: Map<Seq<char>, SkeletonTableView>,
    cell: Seq<char>,
    mt: SkeletonTableView,
    g: ModuleAliasGraph,
) -> Map<RouteView, ResolutionView> {
    walk(gt, cell, mt, g@, zero_queue(g.indegrees.keys(), g.indegrees.values()), usize::MAX as nat).nodes
}

/// Whether the kept signatures `kept` and the errors `errs` are what
/// resolving the aliases of the cell `c`, whose tables (before resolution)
/// are `b`, gives against some resolved tables of other cells: for tables
/// `m` with that value, the nodes of their alias graph walked as
/// `resolution_nodes` says (see `signatures_resolved`).
pub open spec fn resolved_from(b: SkeletonTableView, c: Seq<char>, kept: Map<RouteView, SignatureView>, errs: Seq<crate::name_errors::NameErrorView>) -> bool {
    exists|gtc: Map<Seq<char>, SkeletonTableView>, m: ModuleSkeletonTable, g: ModuleAliasGraph|
        m@ == b && g@ == skeletons_graph(empty_graph(), m.module_skeletons.values()) && #[trigger] signatures_resolved(
            gtc,
            c,
            m.def_signatures.keys(),
            b.def_signatures,
            resolution_nodes(gtc, c, b, g),
            kept,
            errs,
        )
}

impl GrandModuleSkeletonTable {
    /// What the route `route` of the cell resolves to, from what its parent
    /// module and (for an alias) the route it names resolved to.
    fn resolve_node(
        &self,
        cell_sign: &CellSignature,
        mskt: &ModuleSkeletonTable,
        graph: &ModuleAliasGraph,
        route: &Route,
    ) -> (res: ModuleAliasResolutionResult)
        ensures
            mskt@.def_signatures.dom().contains(route@) ==> (mskt@.def_signatures[route@] matches SignatureView::Concrete {
                def_route,
                ..
            } ==> res@ == ResolutionView::Resolved(def_route)),
            res@ != ResolutionView::Unresolved,
            res@ == resolve_spec(cell_tables(&self.cell_module_skeleton_table), cell_sign@, mskt@, graph@, route@),
    {
        match mskt.def_signatures.get(route) {
            Some(SkeletonDefSignature::Concrete(csk_def_sign)) => {
                return ModuleAliasResolutionResult::Resolved(csk_def_sign.def_route.duplicate());
            },
            _ => {},
        }
        match (graph.direct_lasts.get(route), graph.alias_lasts.get(route)) {
            (Some(ModuleAliasTo::InCell(direct_last_unresolved_route)), None) => {
                match graph.nodes.get(direct_last_unresolved_route) {
                    Some(ModuleAliasResolutionResult::Resolved(direct_last_resolve_route)) => {
                        let this_resolve_route = CanonicalRoute::chain_one(direct_last_resolve_route.duplicate(), route.get_last_name());
                        if cell_sign.same_as(&direct_last_resolve_route.root) {
                            match mskt.module_skeletons.get(direct_last_resolve_route) {
                                Some(msk) => {
                                    if msk.contains_concrete(&this_resolve_route) {
                                        ModuleAliasResolutionResult::Resolved(this_resolve_route)
                                    } else {
                                        ModuleAliasResolutionResult::NameNotFound
                                    }
                                },
                                None => ModuleAliasResolutionResult::NameNotFound,
                            }
                        } else {
                            match self.lookup_canonical_route(&this_resolve_route, direct_last_resolve_route) {
                                LookUpCanonicalRouteResult::Resolved(resolved_route) => ModuleAliasResolutionResult::Resolved(resolved_route),
                                LookUpCanonicalRouteResult::VisibilityDenial => ModuleAliasResolutionResult::VisibilityDenial,
                                LookUpCanonicalRouteResult::NameNotFound => ModuleAliasResolutionResult::NameNotFound,
                            }
                        }
                    },
                    Some(ModuleAliasResolutionResult::VisibilityDenial) => ModuleAliasResolutionResult::VisibilityDenial,
                    _ => ModuleAliasResolutionResult::NameNotFound,
                }
            },
            (Some(ModuleAliasTo::InCell(direct_last_unresolved_route)), Some(ModuleAliasTo::InCell(alias_last_unresolved_route))) => {
                let direct = graph.nodes.get(direct_last_unresolved_route);
                let alias = graph.nodes.get(alias_last_unresolved_route);
                match (direct, alias) {
                    (Some(ModuleAliasResolutionResult::NameNotFound), _) | (_, Some(ModuleAliasResolutionResult::NameNotFound)) => {
                        ModuleAliasResolutionResult::NameNotFound
                    },
                    (Some(ModuleAliasResolutionResult::VisibilityDenial), _) | (_, Some(ModuleAliasResolutionResult::VisibilityDenial)) => {
                        ModuleAliasResolutionResult::VisibilityDenial
                    },
                    (Some(ModuleAliasResolutionResult::Resolved(direct_last_resolve_route)), Some(ModuleAliasResolutionResult::Resolved(alias_last_resolve_route))) => {
                        let this_resolve_route = CanonicalRoute::chain_one(direct_last_resolve_route.duplicate(), route.get_last_name());
                        if !this_resolve_route.same_as(route) {
                            return ModuleAliasResolutionResult::NameNotFound;
                        }
                        match self.is_canonical_route_viewable(cell_sign, mskt, graph, alias_last_unresolved_route, direct_last_resolve_route) {
                            IsCanonicalRouteViewableResult::Viewable(_) => ModuleAliasResolutionResult::Resolved(alias_last_resolve_route.duplicate()),
                            IsCanonicalRouteViewableResult::VisibilityDenial => ModuleAliasResolutionResult::VisibilityDenial,
                            IsCanonicalRouteViewableResult::NameNotFound => ModuleAliasResolutionResult::NameNotFound,
                        }
                    },
                    _ => ModuleAliasResolutionResult::NameNotFound,
                }
            },
            (Some(ModuleAliasTo::InCell(direct_last_unresolved_route)), Some(ModuleAliasTo::ExCell(alias_last_unresolved_route))) => {
                let direct = graph.nodes.get(direct_last_unresolved_route);
                let alias = self.lookup_canonical_route(alias_last_unresolved_route, direct_last_unresolved_route);
                match (direct, alias) {
                    (Some(ModuleAliasResolutionResult::NameNotFound), _) | (_, LookUpCanonicalRouteResult::NameNotFound) => {
                        ModuleAliasResolutionResult::NameNotFound
                    },
                    (Some(ModuleAliasResolutionResult::VisibilityDenial), _) | (_, LookUpCanonicalRouteResult::VisibilityDenial) => {
                        ModuleAliasResolutionResult::VisibilityDenial
                    },
                    (Some(ModuleAliasResolutionResult::Resolved(direct_last_resolve_route)), LookUpCanonicalRouteResult::Resolved(alias_last_resolve_route)) => {
                        let this_resolve_route = CanonicalRoute::chain_one(direct_last_resolve_route.duplicate(), route.get_last_name());
                        if !this_resolve_route.same_as(route) {
                            return ModuleAliasResolutionResult::NameNotFound;
                        }
                        match self.cell_module_skeleton_table.get(&alias_last_unresolved_route.root) {
                            Some(other_mskt) => match self.is_canonical_route_viewable(cell_sign, other_mskt, graph,
                                alias_last_unresolved_route, direct_last_resolve_route) {
                                IsCanonicalRouteViewableResult::Viewable(_) => ModuleAliasResolutionResult::Resolved(alias_last_resolve_route),
                                IsCanonicalRouteViewableResult::VisibilityDenial => ModuleAliasResolutionResult::VisibilityDenial,
                                IsCanonicalRouteViewableResult::NameNotFound => ModuleAliasResolutionResult::NameNotFound,
                            },
                            None => ModuleAliasResolutionResult::NameNotFound,
                        }
                    },
                    _ => ModuleAliasResolutionResult::NameNotFound,
                }
            },
            _ => ModuleAliasResolutionResult::NameNotFound,
        }
    }
}

/// Which unresolved aliases are dropped depends only on whether the keys
/// are kept.
pub proof fn lemma_dropped_same(keys: Seq<RouteView>, defs: Map<RouteView, SignatureView>, k1: Map<RouteView, SignatureView>, k2: Map<RouteView, SignatureView>)
    requires
        forall|j: int| 0 <= j < keys.len() ==> k1.dom().contains(#[trigger] keys[j]) == k2.dom().contains(keys[j]),
    ensures
        dropped_aliases(keys, defs, k1) == dropped_aliases(keys, defs, k2),
    decreases keys.len(),
{
    if keys.len() > 0 {
        lemma_dropped_same(keys.drop_last(), defs, k1, k2);
        assert(k1.dom().contains(keys[keys.len() - 1]) == k2.dom().contains(keys[keys.len() - 1]));
    }
}

/// The resolved tables with the tables of one more cell.
fn insert_cell_table(m: &mut KeyedMap<CellSignature, ModuleSkeletonTable>, k: CellSignature, v: ModuleSkeletonTable)
    ensures
        cell_tables(final(m)) == cell_tables(old(m)).insert(k@, v@),
{
    let ghost kv = k@;
    let ghost vv = v@;
    m.insert(k, v);
    proof {
        assert forall|x: Seq<char>| #[trigger] m.has(x) == (old(m).has(x) || x == kv) by {
            assert(m.as_map().dom().contains(x) == m.has(x));
            assert(old(m).as_map().dom().contains(x) == old(m).has(x));
        }
        assert forall|x: Seq<char>| m.has(x) implies #[trigger] m.at(x)@ == if x == kv { vv } else { old(m).at(x)@ } by {
            assert(m.as_map()[x] == m.at(x));
            if x != kv {
                assert(old(m).as_map()[x] == old(m).at(x));
            }
        }
        assert(cell_tables(m) =~= cell_tables(old(m)).insert(kv, vv));
    }
}

/// The graph after each route of `rs`, in order, is added as by
/// `push_direct`.
pub open spec fn push_directs(g: GraphView, rs: Seq<RouteView>) -> GraphView
    decreases rs.len(),
{
    if rs.len() == 0 {
        g
    } else {
        push_direct(push_directs(g, rs.drop_last()), rs.last())
    }
}

/// The graph after each alias `defs[i]` naming `srcs[i]`, in order, is
/// added as by `push_alias`, passing over one whose count leaves no room
/// for one more.
pub open spec fn push_aliases(g: GraphView, defs: Seq<RouteView>, srcs: Seq<RouteView>) -> GraphView
    decreases defs.len(),
{
    if defs.len() == 0 {
        g
    } else {
        let h = push_aliases(g, defs.drop_last(), srcs.drop_last());
        let d = defs.last();
        if !h.indegrees.dom().contains(d) || h.indegrees[d] < usize::MAX {
            push_alias(h, d, srcs[defs.len() - 1])
        } else {
            h
        }
    }
}

/// The routes an alias table names, by entry.
pub open spec fn alias_sources(m: &KeyedMap<Route, Route>) -> Seq<RouteView> {
    m.values().map_values(|r: Route| r@)
}

/// The graph after the routes of skeleton `sk` are added: its exported and
/// internal submodules, its exported and internal concrete definitions
/// (see `push_directs`), then its exported and internal aliases (see
/// `push_aliases`).
pub open spec fn skeleton_graph(g: GraphView, sk: ModuleSkeleton) -> GraphView {
    let g1 = push_directs(g, sk.exported_submodules.elems());
    let g2 = push_directs(g1, sk.internal_submodules.elems());
    let g3 = push_directs(g2, sk.exported_concrete_definitions.elems());
    let g4 = push_directs(g3, sk.internal_concrete_definitions.elems());
    let g5 = push_aliases(g4, sk.exported_alias_definitions.keys(), alias_sources(&sk.exported_alias_definitions));
    push_aliases(g5, sk.internal_alias_definitions.keys(), alias_sources(&sk.internal_alias_definitions))
}

/// The graph after the routes of each skeleton of `sks`, in order, are
/// added (see `skeleton_graph`).
pub open spec fn skeletons_graph(g: GraphView, sks: Seq<ModuleSkeleton>) -> GraphView
    decreases sks.len(),
{
    if sks.len() == 0 {
        g
    } else {
        skeleton_graph(skeletons_graph(g, sks.drop_last()), sks.last())
    }
}

/// The graph with nothing in it.
pub open spec fn empty_graph() -> GraphView {
    GraphView {
        nodes: Map::empty(),
        direct_lasts: Map::empty(),
        alias_lasts: Map::empty(),
        direct_nexts: Map::empty(),
        alias_nexts: Map::empty(),
        indegrees: Map::empty(),
    }
}

/// Adds the routes of `set` to `graph`, in order (see `push_directs`).
fn push_directs_exec(graph: &mut ModuleAliasGraph, set: &KeyedSet<Route>)
    requires
        counts_are_nodes(old(graph)@),
    ensures
        final(graph)@ == push_directs(old(graph)@, set.elems()),
        counts_are_nodes(final(graph)@),
{
    let ghost g0 = graph@;
    let mut j: usize = 0;
    proof {
        assert(set.elems().take(0) =~= Seq::<RouteView>::empty());
    }
    while j < set.len()
        invariant
            j <= set.elems().len(),
            counts_are_nodes(graph@),
            graph@ == push_directs(g0, set.elems().take(j as int)),
        decreases set.elems().len() - j,
    {
        graph.push_from_direct(set.member_at(j).duplicate());
        proof {
            assert(set.elems().take(j + 1).drop_last() =~= set.elems().take(j as int));
        }
        j = j + 1;
    }
    proof {
        assert(set.elems().take(j as int) =~= set.elems());
    }
}

/// Adds the aliases of `map` to `graph`, in order (see `push_aliases`).
fn push_aliases_exec(graph: &mut ModuleAliasGraph, map: &KeyedMap<Route, Route>)
    requires
        counts_are_nodes(old(graph)@),
    ensures
        final(graph)@ == push_aliases(old(graph)@, map.keys(), alias_sources(map)),
        counts_are_nodes(final(graph)@),
{
    let ghost g0 = graph@;
    let ghost srcs = alias_sources(map);
    proof {
        map.lemma_lengths();
        assert(map.keys().take(0) =~= Seq::<RouteView>::empty());
    }
    let mut j: usize = 0;
    while j < map.len()
        invariant
            j <= map.keys().len(),
            map.keys().len() == map.size(),
            map.values().len() == map.size(),
            srcs == alias_sources(map),
            counts_are_nodes(graph@),
            graph@ == push_aliases(g0, map.keys().take(j as int), srcs.take(j as int)),
        decreases map.size() - j,
    {
        let def_route = map.key_at(j);
        let source_route = map.value_at(j);
        let room = match graph.count_of(def_route) {
            Some(n) => n < usize::MAX,
            None => true,
        };
        if room {
            graph.push_from_alias(def_route.duplicate(), source_route.duplicate());
        }
        proof {
            assert(map.keys().take(j + 1).drop_last() =~= map.keys().take(j as int));
            assert(srcs.take(j + 1).drop_last() =~= srcs.take(j as int));
            assert(srcs.take(j + 1)[j as int] == source_route@);
        }
        j = j + 1;
    }
    proof {
        assert(map.keys().take(j as int) =~= map.keys());
        assert(srcs.take(j as int) =~= srcs);
    }
}

impl GrandModuleSkeletonTable {
    /// Builds the graph of the cell's routes: every submodule and concrete
    /// definition of every skeleton, and every alias whose count leaves
    /// room for one more (see `skeletons_graph`).
    fn build_alias_graph(mskt: &ModuleSkeletonTable) -> (res: ModuleAliasGraph)
        ensures
            res@ == skeletons_graph(empty_graph(), mskt.module_skeletons.values()),
            counts_are_nodes(res@),
    {
        let mut graph = ModuleAliasGraph::new();
        let ghost sks = mskt.module_skeletons.values();
        proof {
            assert(graph@ =~= empty_graph());
            assert forall|r: RouteView| #[trigger] graph@.indegrees.dom().contains(r) implies graph@.nodes.dom().contains(r) by {}
            mskt.module_skeletons.lemma_lengths();
            assert(sks.take(0) =~= Seq::<ModuleSkeleton>::empty());
        }
        let mut i: usize = 0;
        while i < mskt.module_skeletons.len()
            invariant
                i <= sks.len(),
                sks == mskt.module_skeletons.values(),
                sks.len() == mskt.module_skeletons.size(),
                counts_are_nodes(graph@),
                graph@ == skeletons_graph(empty_graph(), sks.take(i as int)),
            decreases mskt.module_skeletons.size() - i,
        {
            let skeleton = mskt.module_skeletons.value_at(i);
            push_directs_exec(&mut graph, &skeleton.exported_submodules);
            push_directs_exec(&mut graph, &skeleton.internal_submodules);
            push_directs_exec(&mut graph, &skeleton.exported_concrete_definitions);
            push_directs_exec(&mut graph, &skeleton.internal_concrete_definitions);
            push_aliases_exec(&mut graph, &skeleton.exported_alias_definitions);
            push_aliases_exec(&mut graph, &skeleton.internal_alias_definitions);
            proof {
                assert(sks.take(i + 1).drop_last() =~= sks.take(i as int));
                assert(sks.take(i + 1).last() == *skeleton);
            }
            i = i + 1;
        }
        proof {
            assert(sks.take(i as int) =~= sks);
        }
        graph
    }

    /// Resolves the signatures of the cell `cell_sign`, whose tables are
    /// `mskt`, from what the routes of its alias graph resolved to
    /// (`nodes`): concrete signatures are kept; an unresolved alias whose
    /// node resolved to a route with a resolved signature is kept as
    /// resolved to that route, and is otherwise dropped with an error
    /// (circular alias where its node stayed unresolved, visibility denied
    /// where it was denied, name not found otherwise); erroneous and
    /// already resolved aliases are dropped.
    pub fn resolve_signatures(
        &mut self,
        cell_sign: &CellSignature,
        mskt: &ModuleSkeletonTable,
        nodes: &KeyedMap<Route, ModuleAliasResolutionResult>,
    ) -> (res: KeyedMap<CanonicalRoute, SkeletonDefSignature>)
        ensures
            final(self).cell_module_skeleton_table == old(self).cell_module_skeleton_table,
            final(self).errors@.take(old(self).errors@.len() as int) == old(self).errors@,
            final(self).errors@.len() >= old(self).errors@.len(),
            signatures_resolved(
                cell_tables(&old(self).cell_module_skeleton_table),
                cell_sign@,
                mskt.def_signatures.keys(),
                mskt@.def_signatures,
                view_map(nodes),
                signature_map(&res),
                error_views(final(self).errors@.skip(old(self).errors@.len() as int)),
            ),
    {
        let ghost defs = mskt@.def_signatures;
        let ghost keys = mskt.def_signatures.keys();
        let ghost n0 = self.errors@.len();
        let ghost e0 = self.errors@;
        let ghost gt = cell_tables(&self.cell_module_skeleton_table);
        let ghost nv = view_map(nodes);
        proof {
            use_type_invariant(&mskt.def_signatures);
            mskt.def_signatures.lemma_lengths();
        }
        let mut new_defs: KeyedMap<CanonicalRoute, SkeletonDefSignature> = KeyedMap::new();
        proof {
            assert(signature_map(&new_defs) =~= Map::<RouteView, SignatureView>::empty());
            assert(keys.take(0) =~= Seq::<RouteView>::empty());
            assert(self.errors@.take(n0 as int) =~= e0);
        }
        let mut i: usize = 0;
        while i < mskt.def_signatures.len()
            invariant
                cell_tables(&self.cell_module_skeleton_table) == gt,
                self.cell_module_skeleton_table == old(self).cell_module_skeleton_table,
                n0 == old(self).errors@.len(),
                defs == mskt@.def_signatures,
                keys == mskt.def_signatures.keys(),
                mskt.def_signatures.inv(),
                keys.len() == mskt.def_signatures.size(),
                i <= keys.len(),
                forall|j: int| 0 <= j < i && defs[keys[j]] is Concrete ==> signature_map(&new_defs).dom().contains(
                    #[trigger] keys[j],
                ) && signature_map(&new_defs)[keys[j]] == defs[keys[j]],
                forall|r: RouteView| #[trigger] signature_map(&new_defs).dom().contains(r) ==> defs.dom().contains(r)
                    && kept_signature(gt, cell_sign@, defs, defs[r], signature_map(&new_defs)[r])
                    && exists|j: int| 0 <= j < i && keys[j] == r,
                self.errors@.len() == n0 + dropped_aliases(keys.take(i as int), defs, signature_map(&new_defs)).len(),
                self.errors@.take(n0 as int) == e0,
                forall|j: int| 0 <= j < dropped_aliases(keys.take(i as int), defs, signature_map(&new_defs)).len()
                    ==> alias_error_for(#[trigger] self.errors@[n0 + j]@, defs[dropped_aliases(keys.take(i as int), defs, signature_map(&new_defs))[j]])
                    && alias_outcome(gt, cell_sign@, defs, node_at(nv, dropped_aliases(keys.take(i as int), defs, signature_map(&new_defs))[j]))
                    == Err::<RouteView, GlobalNameAliasResolutionErrorKind>(self.errors@[n0 + j]@.0),
                nv == view_map(nodes),
                forall|j: int| 0 <= j < i && defs[keys[j]] is UnresolvedAlias ==> alias_kept(gt, cell_sign@, defs, nv, #[trigger] keys[j], signature_map(&new_defs)),
            decreases keys.len() - i,
        {
            let route = mskt.def_signatures.key_at(i);
            let sig = mskt.def_signatures.value_at(i);
            let ghost r = route@;
            let ghost before = signature_map(&new_defs);
            proof {
                mskt.def_signatures.lemma_entry(i as int);
                assert(defs[r] == sig@);
                assert(keys.take(i + 1).drop_last() =~= keys.take(i as int));
                assert(keys.take(i + 1).last() == r);
                assert(!before.dom().contains(r)) by {
                    if before.dom().contains(r) {
                        let j = choose|j: int| 0 <= j < i && keys[j] == r;
                        assert(keys[j] != keys[i as int]);
                    }
                }
            }
            match sig {
                SkeletonDefSignature::Concrete(_) => {
                    insert_signature(&mut new_defs, route.duplicate(), sig.duplicate());
                },
                SkeletonDefSignature::UnresolvedAlias(ua_sk_def_sign) => {
                    let parent = match ua_sk_def_sign.def_route.get_parent_route() {
                        Some(p) => p,
                        None => ua_sk_def_sign.def_route.duplicate(),
                    };
                    let mut error_kind: Option<GlobalNameAliasResolutionErrorKind> = None;
                    match nodes.get(route) {
                        Some(ModuleAliasResolutionResult::Resolved(resolved_route)) => {
                            let target = if resolved_route.root.same_as(cell_sign) {
                                mskt.def_signatures.get(resolved_route)
                            } else {
                                self.lookup_def_signature(resolved_route)
                            };
                            match target {
                                Some(target_sig) => {
                                    if target_sig.is_resolved() {
                                        let kind = target_sig.get_resolved_kind();
                                        insert_signature(&mut new_defs, route.duplicate(), SkeletonDefSignature::ResolvedAlias(
                                            ResolvedAliasSkeletonDefSignature {
                                                is_exported: ua_sk_def_sign.is_exported,
                                                position: ua_sk_def_sign.position.duplicate(),
                                                kind,
                                                def_route: ua_sk_def_sign.def_route.duplicate(),
                                                resolved_route: resolved_route.duplicate(),
                                            },
                                        ));
                                    } else {
                                        error_kind = Some(GlobalNameAliasResolutionErrorKind::AliasNameNotFound);
                                    }
                                },
                                None => {
                                    error_kind = Some(GlobalNameAliasResolutionErrorKind::AliasNameNotFound);
                                },
                            }
                        },
                        Some(ModuleAliasResolutionResult::Unresolved) => {
                            error_kind = Some(GlobalNameAliasResolutionErrorKind::CircularAlias);
                        },
                        Some(ModuleAliasResolutionResult::VisibilityDenial) => {
                            error_kind = Some(GlobalNameAliasResolutionErrorKind::VisibilityDenied);
                        },
                        _ => {
                            error_kind = Some(GlobalNameAliasResolutionErrorKind::AliasNameNotFound);
                        },
                    }
                    proof {
                        match error_kind {
                            Some(k) => {
                                assert(alias_outcome(gt, cell_sign@, defs, node_at(nv, r)) == Err::<RouteView, GlobalNameAliasResolutionErrorKind>(k));
                                assert(signature_map(&new_defs) == before);
                            },
                            None => {
                                assert(alias_kept(gt, cell_sign@, defs, nv, r, signature_map(&new_defs)));
                            },
                        }
                    }
                    match error_kind {
                        Some(GlobalNameAliasResolutionErrorKind::CircularAlias) => {
                            self.errors.push(GlobalNameAliasResolutionError::circular_alias(parent,
                                ua_sk_def_sign.def_route.duplicate(), ua_sk_def_sign.position.duplicate()));
                        },
                        Some(GlobalNameAliasResolutionErrorKind::VisibilityDenied) => {
                            self.errors.push(GlobalNameAliasResolutionError::visibility_denial(parent,
                                ua_sk_def_sign.def_route.duplicate(), ua_sk_def_sign.position.duplicate()));
                        },
                        Some(_) => {
                            self.errors.push(GlobalNameAliasResolutionError::alias_name_not_found(parent,
                                ua_sk_def_sign.def_route.duplicate(), ua_sk_def_sign.position.duplicate()));
                        },
                        None => {},
                    }
                },
                _ => {},
            }
            proof {
                let after = signature_map(&new_defs);
                assert forall|j: int| 0 <= j < i implies after.dom().contains(#[trigger] keys[j]) == before.dom().contains(keys[j]) by {
                    assert(keys[j] != keys[i as int]);
                }
                lemma_dropped_same(keys.take(i as int), defs, before, after);
                assert forall|j: int| 0 <= j < i + 1 && defs[keys[j]] is Concrete implies signature_map(&new_defs).dom().contains(
                    #[trigger] keys[j],
                ) && signature_map(&new_defs)[keys[j]] == defs[keys[j]] by {
                    if j < i {
                        assert(keys[j] != keys[i as int]);
                    }
                }
                assert forall|r2: RouteView| #[trigger] after.dom().contains(r2) implies defs.dom().contains(r2)
                    && kept_signature(gt, cell_sign@, defs, defs[r2], after[r2])
                    && exists|j: int| 0 <= j < i + 1 && keys[j] == r2 by {
                    if r2 == r {
                        assert(keys[i as int] == r2);
                        assert(mskt.def_signatures.has(r));
                    } else {
                        assert(before.dom().contains(r2));
                    }
                }
                assert(self.errors@.take(n0 as int) =~= e0);
                assert forall|j: int| 0 <= j < i + 1 && defs[keys[j]] is UnresolvedAlias implies alias_kept(
                    gt,
                    cell_sign@,
                    defs,
                    nv,
                    #[trigger] keys[j],
                    after,
                ) by {
                    if j < i {
                        assert(keys[j] != keys[i as int]);
                        assert(alias_kept(gt, cell_sign@, defs, nv, keys[j], before));
                    }
                }
            }
            i = i + 1;
        }
        proof {
            assert(keys.take(i as int) =~= keys);
            assert(self.errors@.skip(n0 as int).len() == dropped_aliases(keys, defs, signature_map(&new_defs)).len());
            let errs = error_views(self.errors@.skip(n0 as int));
            assert forall|j: int| 0 <= j < errs.len() implies #[trigger] errs[j] == self.errors@[n0 + j]@ by {}
        }
        new_defs
    }

    /// Resolves the aliases of the cell `cell_sign`, whose tables `mskt`
    /// were just built, against the tables of the cells already resolved,
    /// and stores the resolved tables of the cell.  The routes of the
    /// cell's alias graph are resolved in an order where what a route
    /// depends on comes first; the signatures are then resolved from what
    /// the graph's routes resolved to, as `resolve_signatures` says:
    /// concrete signatures are kept; an unresolved alias is kept as
    /// resolved to the route its graph node resolved to, or dropped with an
    /// error (circular alias, visibility denied, or name not found);
    /// erroneous aliases are dropped.
    pub fn module_skeleton_resolution(&mut self, cell_sign: &CellSignature, mskt: ModuleSkeletonTable)
        ensures
            ({
                let gt = cell_tables(&old(self).cell_module_skeleton_table);
                let t = cell_tables(&final(self).cell_module_skeleton_table)[cell_sign@];
                let defs = mskt@.def_signatures;
                let dropped = dropped_aliases(mskt.def_signatures.keys(), defs, t.def_signatures);
                let n = old(self).errors@.len();
                &&& cell_tables(&final(self).cell_module_skeleton_table) == gt.insert(cell_sign@, t)
                &&& t.root == mskt@.root
                &&& t.module_skeletons == mskt@.module_skeletons
                &&& t.errors == mskt@.errors
                &&& forall|r: RouteView| #[trigger] defs.dom().contains(r) && defs[r] is Concrete ==> t.def_signatures.dom().contains(r)
                    && t.def_signatures[r] == defs[r]
                &&& forall|r: RouteView| #[trigger] t.def_signatures.dom().contains(r) ==> defs.dom().contains(r)
                    && kept_signature(gt, cell_sign@, defs, defs[r], t.def_signatures[r])
                &&& final(self).errors@.len() == n + dropped.len()
                &&& final(self).errors@.take(n as int) == old(self).errors@
                &&& forall|j: int| 0 <= j < dropped.len() ==> alias_error_for(#[trigger] final(self).errors@[n + j]@, defs[dropped[j]])
                &&& exists|g: ModuleAliasGraph| g@ == skeletons_graph(empty_graph(), mskt.module_skeletons.values())
                    && #[trigger] signatures_resolved(
                    gt,
                    cell_sign@,
                    mskt.def_signatures.keys(),
                    defs,
                    resolution_nodes(gt, cell_sign@, mskt@, g),
                    t.def_signatures,
                    error_views(final(self).errors@.skip(n as int)),
                )
            }),
    {
        let ghost gt = cell_tables(&self.cell_module_skeleton_table);
        let mut graph = Self::build_alias_graph(&mskt);
        let ghost g0 = graph;
        // the routes nothing unresolved points to
        let mut q: VecDeque<Route> = VecDeque::new();
        proof {
            graph.indegrees.lemma_lengths();
            assert(route_views(q@) =~= zero_queue(graph.indegrees.keys().take(0), graph.indegrees.values().take(0)));
        }
        let mut i: usize = 0;
        while i < graph.indegrees.len()
            invariant
                graph == g0,
                i <= graph.indegrees.size(),
                graph.indegrees.keys().len() == graph.indegrees.size(),
                graph.indegrees.values().len() == graph.indegrees.size(),
                route_views(q@) == zero_queue(graph.indegrees.keys().take(i as int), graph.indegrees.values().take(i as int)),
            decreases graph.indegrees.size() - i,
        {
            let ghost ks = graph.indegrees.keys().take(i + 1);
            let ghost vs = graph.indegrees.values().take(i + 1);
            proof {
                assert(ks.drop_last() =~= graph.indegrees.keys().take(i as int));
                assert(vs.drop_last() =~= graph.indegrees.values().take(i as int));
            }
            if *graph.indegrees.value_at(i) == 0 {
                let ghost q0 = q@;
                q.push_back(graph.indegrees.key_at(i).duplicate());
                proof {
                    assert(route_views(q@) =~= route_views(q0).push(ks.last()));
                }
            } else {
                proof {
                    assert(route_views(q@) =~= zero_queue(ks, vs));
                }
            }
            i = i + 1;
        }
        proof {
            assert(graph.indegrees.keys().take(i as int) =~= graph.indegrees.keys());
            assert(graph.indegrees.values().take(i as int) =~= graph.indegrees.values());
        }
        let ghost fin = walk(gt, cell_sign@, mskt@, graph@, route_views(q@), usize::MAX as nat);
        proof {
            assert(fin.nodes == resolution_nodes(gt, cell_sign@, mskt@, g0));
        }
        // resolve in an order where what a route depends on comes first
        let mut steps: usize = 0;
        while steps < usize::MAX && q.len() > 0
            invariant
                cell_tables(&self.cell_module_skeleton_table) == gt,
                walk(gt, cell_sign@, mskt@, graph@, route_views(q@), (usize::MAX - steps) as nat) == fin,
            decreases usize::MAX - steps,
        {
            let ghost qfull = route_views(q@);
            let route = q.pop_front().unwrap();
            let ghost qrest = route_views(q@);
            proof {
                assert(qfull[0] == route@);
                assert(qrest =~= qfull.drop_first());
            }
            let ghost gb = graph@;
            let result = self.resolve_node(cell_sign, &mskt, &graph, &route);
            put_view(&mut graph.nodes, route.duplicate(), result);
            let ghost g1 = graph@;
            proof {
                assert(g1 == GraphView { nodes: gb.nodes.insert(route@, resolve_spec(gt, cell_sign@, mskt@, gb, route@)), ..gb });
            }
            let mut nexts: Vec<Route> = Vec::new();
            match graph.direct_nexts.get(&route) {
                Some(list) => {
                    let mut j: usize = 0;
                    while j < list.len()
                        invariant
                            j <= list@.len(),
                            route_views(nexts@) == route_views(list@).take(j as int),
                        decreases list.len() - j,
                    {
                        let ghost nb = nexts@;
                        nexts.push(list[j].duplicate());
                        proof {
                            assert(route_views(list@).take(j + 1) =~= route_views(list@).take(j as int).push(list@[j as int]@));
                            assert(route_views(nexts@) =~= route_views(nb).push(list@[j as int]@));
                        }
                        j = j + 1;
                    }
                    proof {
                        assert(route_views(list@).take(j as int) =~= route_views(list@));
                    }
                },
                None => {},
            }
            let ghost first = route_views(nexts@);
            proof {
                assert(first =~= if g1.direct_nexts.dom().contains(route@) { g1.direct_nexts[route@] } else { Seq::<RouteView>::empty() });
            }
            match graph.alias_nexts.get(&route) {
                Some(list) => {
                    let mut j: usize = 0;
                    while j < list.len()
                        invariant
                            j <= list@.len(),
                            route_views(nexts@) == first + route_views(list@).take(j as int),
                        decreases list.len() - j,
                    {
                        let ghost nb = nexts@;
                        nexts.push(list[j].duplicate());
                        proof {
                            assert(route_views(list@).take(j + 1) =~= route_views(list@).take(j as int).push(list@[j as int]@));
                            assert(route_views(nexts@) =~= route_views(nb).push(list@[j as int]@));
                            assert(route_views(nexts@) =~= first + route_views(list@).take(j + 1));
                        }
                        j = j + 1;
                    }
                    proof {
                        assert(route_views(list@).take(j as int) =~= route_views(list@));
                    }
                },
                None => {
                    proof {
                        assert(route_views(nexts@) =~= first + Seq::<RouteView>::empty());
                    }
                },
            }
            let ghost ns = route_views(nexts@);
            proof {
                assert(ns =~= next_routes(g1, route@));
                assert(release(g1.indegrees, qrest, ns.take(0)) == (g1.indegrees, qrest));
                assert(graph@ =~= GraphView { indegrees: g1.indegrees, ..g1 });
            }
            let mut j: usize = 0;
            while j < nexts.len()
                invariant
                    j <= nexts@.len(),
                    ns == route_views(nexts@),
                    graph@ == (GraphView { indegrees: release(g1.indegrees, qrest, ns.take(j as int)).0, ..g1 }),
                    route_views(q@) == release(g1.indegrees, qrest, ns.take(j as int)).1,
                decreases nexts.len() - j,
            {
                let next_route = &nexts[j];
                proof {
                    assert(ns.take(j + 1).drop_last() =~= ns.take(j as int));
                    assert(ns.take(j + 1).last() == next_route@);
                }
                let ghost qb = q@;
                match graph.count_of(next_route) {
                    Some(n) => {
                        if n > 0 {
                            put_count(&mut graph.indegrees, next_route.duplicate(), n - 1);
                            if n - 1 == 0 {
                                q.push_back(next_route.duplicate());
                                proof {
                                    assert(route_views(q@) =~= route_views(qb).push(next_route@));
                                }
                            }
                        }
                    },
                    None => {},
                }
                proof {
                    assert(graph@ =~= (GraphView { indegrees: release(g1.indegrees, qrest, ns.take(j + 1)).0, ..g1 }));
                }
                j = j + 1;
            }
            proof {
                assert(ns.take(j as int) =~= ns);
            }
            steps = steps + 1;
        }
        proof {
            assert(graph@ == fin);
        }
        // the resolved signatures of the cell
        let ghost n = self.errors@.len();
        let new_defs = self.resolve_signatures(cell_sign, &mskt, &graph.nodes);
        proof {
            let errs = error_views(self.errors@.skip(n as int));
            assert(self.errors@.len() == n + errs.len());
            assert forall|j: int| 0 <= j < errs.len() implies #[trigger] self.errors@[n + j]@ == errs[j] by {}
            assert(view_map(&graph.nodes) == resolution_nodes(gt, cell_sign@, mskt@, g0));
            assert(signatures_resolved(gt, cell_sign@, mskt.def_signatures.keys(), mskt@.def_signatures, resolution_nodes(gt, cell_sign@, mskt@, g0), signature_map(&new_defs), errs));
        }
        let ModuleSkeletonTable { root, module_skeletons, def_signatures: _, errors } = mskt;
        let new_table = ModuleSkeletonTable { root, module_skeletons, def_signatures: new_defs, errors };
        insert_cell_table(&mut self.cell_module_skeleton_table, cell_sign.duplicate(), new_table);
    }
}

} // verus!
