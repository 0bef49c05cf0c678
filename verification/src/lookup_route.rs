use vstd::prelude::*;
use crate::def_signature::{SignatureView, SkeletonDefSignature, SkeletonDefSignatureKind};
use crate::lookup_canonical_route::{LookUpCanonicalRouteResult, cell_tables, lookup_spec};
use crate::module_skeleton::{RidResultView, RidToModuleRouteResult, SkeletonTableView, rid_route};
use crate::parsed::{ParsedBox, RoutedIdentifier};
use crate::route::{CanonicalRoute, Route, RouteView};
use crate::shape_summary::GrandShapeContentSummaryAtWork;

verus! {

/// Where a routed name used as a definition of some kind leads.
#[derive(Debug)]
pub enum RidToShapeRouteResult {
    Found(Route),
    RouteExistsButKindDifferent { route: Route, expected: SkeletonDefSignatureKind, found: SkeletonDefSignatureKind },
    RouteNotFound,
    UnknownRootRouteFraction,
    SingleCellOrRelativeKeywordRouteNotAllowed,
}

/// The abstract value of such an outcome.
pub enum RidShapeView {
    Found(RouteView),
    RouteExistsButKindDifferent { route: RouteView, expected: SkeletonDefSignatureKind, found: SkeletonDefSignatureKind },
    RouteNotFound,
    UnknownRootRouteFraction,
    SingleCellOrRelativeKeywordRouteNotAllowed,
}

impl View for RidToShapeRouteResult {
    type V = RidShapeView;

    open spec fn view(&self) -> RidShapeView {
        match self {
            RidToShapeRouteResult::Found(r) => RidShapeView::Found(r@),
            RidToShapeRouteResult::RouteExistsButKindDifferent { route, expected, found } => RidShapeView::RouteExistsButKindDifferent {
                route: route@,
                expected: *expected,
                found: *found,
            },
            RidToShapeRouteResult::RouteNotFound => RidShapeView::RouteNotFound,
            RidToShapeRouteResult::UnknownRootRouteFraction => RidShapeView::UnknownRootRouteFraction,
            RidToShapeRouteResult::SingleCellOrRelativeKeywordRouteNotAllowed => RidShapeView::SingleCellOrRelativeKeywordRouteNotAllowed,
        }
    }
}

/// The route the names `names` stand for in module `view` (see
/// `rid_route`), read against the roots of that module; `None` where the
/// module has no skeleton.
pub open spec fn rid_in_module(g: Map<Seq<char>, SkeletonTableView>, names: Seq<Seq<char>>, view: RouteView) -> Option<RidResultView> {
    if g.dom().contains(view.root) && g[view.root].module_skeletons.dom().contains(view) {
        Some(rid_route(g[view.root].module_skeletons[view].route_root_table, names))
    } else {
        None
    }
}

/// Where the names `names`, used in module `view` as a definition of kind
/// `expected`, lead: the definition's route where a definition of that
/// kind is found there; the route and both kinds where one of another kind
/// is; not found where the module has no skeleton, the route has no
/// signature, or its signature is not a definition; the refusals of
/// `rid_route` otherwise.
pub open spec fn rid_kind(g: Map<Seq<char>, SkeletonTableView>, names: Seq<Seq<char>>, expected: SkeletonDefSignatureKind, view: RouteView) -> RidShapeView {
    match rid_in_module(g, names, view) {
        None => RidShapeView::RouteNotFound,
        Some(RidResultView::UnknownRootRouteFraction) => RidShapeView::UnknownRootRouteFraction,
        Some(RidResultView::SingleCellOrRelativeKeywordRouteNotAllowed) => RidShapeView::SingleCellOrRelativeKeywordRouteNotAllowed,
        Some(RidResultView::Found(r)) => if g.dom().contains(r.root) && g[r.root].def_signatures.dom().contains(r) {
            match g[r.root].def_signatures[r] {
                SignatureView::Concrete { kind, def_route, .. } => if kind == expected {
                    RidShapeView::Found(def_route)
                } else {
                    RidShapeView::RouteExistsButKindDifferent { route: def_route, expected, found: kind }
                },
                _ => RidShapeView::RouteNotFound,
            }
        } else {
            RidShapeView::RouteNotFound
        },
    }
}

impl<'a> GrandShapeContentSummaryAtWork<'a> {
    /// Where `target_route` leads when looked up from `view_route` in the
    /// name tables (see `lookup_spec`).
    pub fn lookup_canonical_route(&self, target_route: CanonicalRoute, view_route: CanonicalRoute) -> (res: LookUpCanonicalRouteResult)
        ensures
            res@ == lookup_spec(cell_tables(&self.grand_module_skeleton_table.cell_module_skeleton_table), target_route@, view_route@),
    {
        self.grand_module_skeleton_table.lookup_canonical_route(&target_route, &view_route)
    }

    /// The route the routed name `pb_rid` stands for in module
    /// `view_route`, read against that module's roots; `None` where the
    /// module has no skeleton.
    pub fn lookup_route_from_rid_naive(&self, pb_rid: ParsedBox<RoutedIdentifier>, view_route: CanonicalRoute) -> (res: Option<RidToModuleRouteResult>)
        ensures
            ({
                let g = cell_tables(&self.grand_module_skeleton_table.cell_module_skeleton_table);
                match res {
                    Some(r) => rid_in_module(g, pb_rid.value.names(), view_route@) == Some(r@),
                    None => rid_in_module(g, pb_rid.value.names(), view_route@) is None,
                }
            }),
    {
        let ghost g = cell_tables(&self.grand_module_skeleton_table.cell_module_skeleton_table);
        match self.grand_module_skeleton_table.cell_module_skeleton_table.get(&view_route.root) {
            Some(mskt) => {
                if mskt.module_skeletons.contains_key(&view_route) {
                    proof {
                        assert(g[view_route@.root] == mskt@);
                    }
                    Some(mskt.rid_to_module_route_with_internal_rrt(view_route, &pb_rid))
                } else {
                    None
                }
            },
            None => None,
        }
    }

    /// Where the routed name `pb_rid`, used in module `view_route` as a
    /// definition of kind `expected_kind`, leads (see `rid_kind`).
    pub fn lookup_def_kind_from_rid(
        &self,
        pb_rid: ParsedBox<RoutedIdentifier>,
        expected_kind: SkeletonDefSignatureKind,
        view_route: CanonicalRoute,
    ) -> (res: RidToShapeRouteResult)
        ensures
            res@ == rid_kind(
                cell_tables(&self.grand_module_skeleton_table.cell_module_skeleton_table),
                pb_rid.value.names(),
                expected_kind,
                view_route@,
            ),
    {
        match self.lookup_route_from_rid_naive(pb_rid, view_route) {
            None => RidToShapeRouteResult::RouteNotFound,
            Some(RidToModuleRouteResult::UnknownRootRouteFraction) => RidToShapeRouteResult::UnknownRootRouteFraction,
            Some(RidToModuleRouteResult::SingleCellOrRelativeKeywordRouteNotAllowed) => {
                RidToShapeRouteResult::SingleCellOrRelativeKeywordRouteNotAllowed
            },
            Some(RidToModuleRouteResult::Found(route)) => match self.grand_module_skeleton_table.lookup_def_signature(&route) {
                Some(SkeletonDefSignature::Concrete(c)) => {
                    if c.kind == expected_kind {
                        RidToShapeRouteResult::Found(c.def_route.duplicate())
                    } else {
                        RidToShapeRouteResult::RouteExistsButKindDifferent {
                            route: c.def_route.duplicate(),
                            expected: expected_kind,
                            found: c.kind,
                        }
                    }
                },
                _ => RidToShapeRouteResult::RouteNotFound,
            },
        }
    }
}

} // verus!
