use vstd::prelude::*;
use crate::parsed::{ParsedPosition, PositionView};
use crate::route::{CanonicalRoute, Route, RouteView};
use crate::strings::copy_strings;

verus! {

/// What went wrong while resolving a `use` alias.
#[derive(Debug, Clone, Copy, PartialEq, Eq, Structural)]
pub enum GlobalNameAliasResolutionErrorKind {
    UnknownRootRouteFraction,
    SingleCellOrRelativeKeywordRouteNotAllowed,
    VisibilityDenied,
    AliasNameNotFound,
    CircularAlias,
}

/// An error found while resolving the aliases of a cell.  `route` holds
/// the names as written where the route could not even be formed, and the
/// alias's own route otherwise.
#[derive(Debug)]
pub struct GlobalNameAliasResolutionError {
    pub kind: GlobalNameAliasResolutionErrorKind,
    pub parent_module_route: CanonicalRoute,
    pub route: Result<Route, Vec<String>>,
    pub position: ParsedPosition,
}

/// The abstract value of an alias-resolution error.
pub type NameErrorView = (GlobalNameAliasResolutionErrorKind, RouteView, Result<RouteView, Seq<Seq<char>>>, PositionView);

impl View for GlobalNameAliasResolutionError {
    type V = NameErrorView;

    open spec fn view(&self) -> NameErrorView {
        (
            self.kind,
            self.parent_module_route@,
            match self.route {
                Ok(r) => Ok(r@),
                Err(v) => Err(v.deep_view()),
            },
            self.position@,
        )
    }
}

/// The errors of alias resolution, in the order they were found.
pub type GlobalNameAliasResolutionErrors = Vec<GlobalNameAliasResolutionError>;

/// A copy of a list of alias-resolution errors.
pub fn copy_name_errors(v: &GlobalNameAliasResolutionErrors) -> (res: GlobalNameAliasResolutionErrors)
    ensures
        res@.map_values(|e: GlobalNameAliasResolutionError| e@) == v@.map_values(|e: GlobalNameAliasResolutionError| e@),
{
    let mut res: GlobalNameAliasResolutionErrors = Vec::new();
    let mut i: usize = 0;
    while i < v.len()
        invariant
            i <= v@.len(),
            res@.map_values(|e: GlobalNameAliasResolutionError| e@) == v@.map_values(|e: GlobalNameAliasResolutionError| e@).take(i as int),
        decreases v.len() - i,
    {
        res.push(v[i].duplicate());
        proof {
            let s = v@.map_values(|e: GlobalNameAliasResolutionError| e@);
            assert(s.take(i + 1) =~= s.take(i as int).push(s[i as int]));
            assert(res@.map_values(|e: GlobalNameAliasResolutionError| e@) =~= s.take(i + 1));
        }
        i = i + 1;
    }
    proof {
        let s = v@.map_values(|e: GlobalNameAliasResolutionError| e@);
        assert(s.take(v@.len() as int) =~= s);
    }
    res
}

impl GlobalNameAliasResolutionError {
    /// A copy of this error.
    pub fn duplicate(&self) -> (res: Self)
        ensures
            res@ == self@,
    {
        let route = match &self.route {
            Ok(r) => Ok(r.duplicate()),
            Err(v) => Err(copy_strings(v)),
        };
        Self {
            kind: self.kind,
            parent_module_route: self.parent_module_route.duplicate(),
            route,
            position: self.position.duplicate(),
        }
    }

    /// The first name of a `use` route names no known root.
    pub fn unknown_root_route_fraction(
        parent_module_route: CanonicalRoute,
        pre_route: Vec<String>,
        position: ParsedPosition,
    ) -> (res: Self)
        ensures
            res.kind == GlobalNameAliasResolutionErrorKind::UnknownRootRouteFraction,
            res.parent_module_route == parent_module_route,
            res.route == Err::<Route, Vec<String>>(pre_route),
            res.position == position,
    {
        Self {
            kind: GlobalNameAliasResolutionErrorKind::UnknownRootRouteFraction,
            parent_module_route,
            route: Err(pre_route),
            position,
        }
    }

    /// A `use` route made of a cell name or a relative keyword alone.
    pub fn single_cell_or_relative_keyword_route_not_allowed(
        parent_module_route: CanonicalRoute,
        pre_route: Vec<String>,
        position: ParsedPosition,
    ) -> (res: Self)
        ensures
            res.kind == GlobalNameAliasResolutionErrorKind::SingleCellOrRelativeKeywordRouteNotAllowed,
            res.parent_module_route == parent_module_route,
            res.route == Err::<Route, Vec<String>>(pre_route),
            res.position == position,
    {
        Self {
            kind: GlobalNameAliasResolutionErrorKind::SingleCellOrRelativeKeywordRouteNotAllowed,
            parent_module_route,
            route: Err(pre_route),
            position,
        }
    }

    /// The aliased name exists but is not visible from the alias.
    pub fn visibility_denial(
        parent_module_route: CanonicalRoute,
        route: Route,
        position: ParsedPosition,
    ) -> (res: Self)
        ensures
            res.kind == GlobalNameAliasResolutionErrorKind::VisibilityDenied,
            res.parent_module_route == parent_module_route,
            res.route == Ok::<Route, Vec<String>>(route),
            res.position == position,
    {
        Self {
            kind: GlobalNameAliasResolutionErrorKind::VisibilityDenied,
            parent_module_route,
            route: Ok(route),
            position,
        }
    }

    /// The aliased name does not exist.
    pub fn alias_name_not_found(
        parent_module_route: CanonicalRoute,
        route: Route,
        position: ParsedPosition,
    ) -> (res: Self)
        ensures
            res.kind == GlobalNameAliasResolutionErrorKind::AliasNameNotFound,
            res.parent_module_route == parent_module_route,
            res.route == Ok::<Route, Vec<String>>(route),
            res.position == position,
    {
        Self {
            kind: GlobalNameAliasResolutionErrorKind::AliasNameNotFound,
            parent_module_route,
            route: Ok(route),
            position,
        }
    }

    /// The alias takes part in a cycle of aliases.
    pub fn circular_alias(
        parent_module_route: CanonicalRoute,
        route: Route,
        position: ParsedPosition,
    ) -> (res: Self)
        ensures
            res.kind == GlobalNameAliasResolutionErrorKind::CircularAlias,
            res.parent_module_route == parent_module_route,
            res.route == Ok::<Route, Vec<String>>(route),
            res.position == position,
    {
        Self {
            kind: GlobalNameAliasResolutionErrorKind::CircularAlias,
            parent_module_route,
            route: Ok(route),
            position,
        }
    }
}

} // verus!
