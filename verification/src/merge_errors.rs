use vstd::prelude::*;
use crate::parsed::ParsedPosition;
use crate::route::Route;

verus! {

/// What went wrong while merging the statements of a module.
#[derive(Debug, Clone, Copy, PartialEq, Eq, Structural)]
pub enum ModuleMergeErrorKind {
    ModuleMergeConflict,
}

/// An error found while merging modules: `name` was defined twice under
/// the module `route`.
#[derive(Debug)]
pub struct ModuleMergeError {
    pub kind: ModuleMergeErrorKind,
    pub name: String,
    pub route: Route,
    pub position: ParsedPosition,
}

/// The abstract value of a merge error: its kind, the name, the route of
/// the module and the position.
pub type MergeErrorView = (ModuleMergeErrorKind, Seq<char>, crate::route::RouteView, crate::parsed::PositionView);

impl View for ModuleMergeError {
    type V = MergeErrorView;

    open spec fn view(&self) -> MergeErrorView {
        (self.kind, self.name@, self.route@, self.position@)
    }
}

/// The errors of module merging, in the order they were found.
pub type ModuleMergeErrors = Vec<ModuleMergeError>;

impl ModuleMergeError {
    /// A name defined twice in one module.
    pub fn module_merge_conflict(name: String, route: Route, position: ParsedPosition) -> (res: Self)
        ensures
            res.kind == ModuleMergeErrorKind::ModuleMergeConflict,
            res.name == name,
            res.route == route,
            res.position == position,
    {
        Self { kind: ModuleMergeErrorKind::ModuleMergeConflict, name, route, position }
    }
}

} // verus!
