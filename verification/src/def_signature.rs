use vstd::prelude::*;
use crate::ast::{BindDef, OperationDef, ShapeDef, Use};
use crate::name_errors::GlobalNameAliasResolutionErrorKind;
use crate::parsed::{ParsedBox, ParsedPosition, PositionView};
use crate::route::{CanonicalRoute, Route, RouteView};

verus! {

/// What kind of definition a name stands for.
#[derive(Debug, Clone, Copy, PartialEq, Eq, Structural, Hash)]
pub enum SkeletonDefSignatureKind {
    Shape,
    Operation,
    Module,
    BindDef,
}

impl SkeletonDefSignatureKind {
    /// The word for the kind as it appears in messages.
    pub fn to_text(&self) -> (res: String)
        ensures
            res@ == kind_word(*self),
    {
        match self {
            SkeletonDefSignatureKind::Shape => String::from_str("shape"),
            SkeletonDefSignatureKind::Operation => String::from_str("operation"),
            SkeletonDefSignatureKind::Module => String::from_str("module"),
            SkeletonDefSignatureKind::BindDef => String::from_str("bind"),
        }
    }
}

/// The word for a kind as it appears in messages.
pub open spec fn kind_word(k: SkeletonDefSignatureKind) -> Seq<char> {
    match k {
        SkeletonDefSignatureKind::Shape => "shape"@,
        SkeletonDefSignatureKind::Operation => "operation"@,
        SkeletonDefSignatureKind::Module => "module"@,
        SkeletonDefSignatureKind::BindDef => "bind"@,
    }
}

/// A definition written where its route says.
#[derive(Debug)]
pub struct ConcreteSkeletonDefSignature {
    pub is_exported: bool,
    pub position: ParsedPosition,
    pub kind: SkeletonDefSignatureKind,
    pub def_route: CanonicalRoute,
}

/// A `use` alias whose target is known only as the route it names.
#[derive(Debug)]
pub struct UnresolvedAliasSkeletonDefSignature {
    pub is_exported: bool,
    pub position: ParsedPosition,
    pub def_route: CanonicalRoute,
    pub unresolved_route: CanonicalRoute,
}

/// A `use` alias resolved to the route of the definition it stands for.
#[derive(Debug)]
pub struct ResolvedAliasSkeletonDefSignature {
    pub is_exported: bool,
    pub position: ParsedPosition,
    pub kind: SkeletonDefSignatureKind,
    pub def_route: CanonicalRoute,
    pub resolved_route: CanonicalRoute,
}

/// What the name-resolution tables know of a defined name.
#[derive(Debug)]
pub enum SkeletonDefSignature {
    Concrete(ConcreteSkeletonDefSignature),
    UnresolvedAlias(UnresolvedAliasSkeletonDefSignature),
    ResolvedAlias(ResolvedAliasSkeletonDefSignature),
    ErrorAlias(GlobalNameAliasResolutionErrorKind),
}

/// The abstract value of a definition signature.
pub enum SignatureView {
    Concrete { is_exported: bool, position: PositionView, kind: SkeletonDefSignatureKind, def_route: RouteView },
    UnresolvedAlias { is_exported: bool, position: PositionView, def_route: RouteView, unresolved_route: RouteView },
    ResolvedAlias {
        is_exported: bool,
        position: PositionView,
        kind: SkeletonDefSignatureKind,
        def_route: RouteView,
        resolved_route: RouteView,
    },
    ErrorAlias(GlobalNameAliasResolutionErrorKind),
}

impl View for SkeletonDefSignature {
    type V = SignatureView;

    open spec fn view(&self) -> SignatureView {
        match self {
            SkeletonDefSignature::Concrete(c) => SignatureView::Concrete {
                is_exported: c.is_exported,
                position: c.position@,
                kind: c.kind,
                def_route: c.def_route@,
            },
            SkeletonDefSignature::UnresolvedAlias(u) => SignatureView::UnresolvedAlias {
                is_exported: u.is_exported,
                position: u.position@,
                def_route: u.def_route@,
                unresolved_route: u.unresolved_route@,
            },
            SkeletonDefSignature::ResolvedAlias(r) => SignatureView::ResolvedAlias {
                is_exported: r.is_exported,
                position: r.position@,
                kind: r.kind,
                def_route: r.def_route@,
                resolved_route: r.resolved_route@,
            },
            SkeletonDefSignature::ErrorAlias(k) => SignatureView::ErrorAlias(*k),
        }
    }
}

impl SkeletonDefSignature {
    /// A copy of this signature.
    pub fn duplicate(&self) -> (res: Self)
        ensures
            res@ == self@,
    {
        match self {
            SkeletonDefSignature::Concrete(c) => SkeletonDefSignature::Concrete(ConcreteSkeletonDefSignature {
                is_exported: c.is_exported,
                position: c.position.duplicate(),
                kind: c.kind,
                def_route: c.def_route.duplicate(),
            }),
            SkeletonDefSignature::UnresolvedAlias(u) => SkeletonDefSignature::UnresolvedAlias(
                UnresolvedAliasSkeletonDefSignature {
                    is_exported: u.is_exported,
                    position: u.position.duplicate(),
                    def_route: u.def_route.duplicate(),
                    unresolved_route: u.unresolved_route.duplicate(),
                },
            ),
            SkeletonDefSignature::ResolvedAlias(r) => SkeletonDefSignature::ResolvedAlias(
                ResolvedAliasSkeletonDefSignature {
                    is_exported: r.is_exported,
                    position: r.position.duplicate(),
                    kind: r.kind,
                    def_route: r.def_route.duplicate(),
                    resolved_route: r.resolved_route.duplicate(),
                },
            ),
            SkeletonDefSignature::ErrorAlias(k) => SkeletonDefSignature::ErrorAlias(*k),
        }
    }
}

impl SkeletonDefSignature {
    /// The signature of a shape definition at `def_route`.
    pub fn push_from_pb_shape(def_route: CanonicalRoute, pb_shape: &ParsedBox<ShapeDef>) -> (res: Self)
        ensures
            res matches SkeletonDefSignature::Concrete(c) && c.is_exported == pb_shape.value.is_export
                && c.position@ == pb_shape.position@ && c.kind == SkeletonDefSignatureKind::Shape
                && c.def_route == def_route,
    {
        SkeletonDefSignature::Concrete(ConcreteSkeletonDefSignature {
            is_exported: pb_shape.value().is_export,
            position: pb_shape.position.duplicate(),
            kind: SkeletonDefSignatureKind::Shape,
            def_route,
        })
    }

    /// The signature of an operation definition at `def_route`.
    pub fn push_from_pb_operation(def_route: CanonicalRoute, pb_operation: &ParsedBox<OperationDef>) -> (res: Self)
        ensures
            res matches SkeletonDefSignature::Concrete(c) && c.is_exported == pb_operation.value.is_export
                && c.position@ == pb_operation.position@ && c.kind == SkeletonDefSignatureKind::Operation
                && c.def_route == def_route,
    {
        SkeletonDefSignature::Concrete(ConcreteSkeletonDefSignature {
            is_exported: pb_operation.value().is_export,
            position: pb_operation.position.duplicate(),
            kind: SkeletonDefSignatureKind::Operation,
            def_route,
        })
    }

    /// The signature of a bind definition at `def_route`.
    pub fn push_from_pb_bind(def_route: CanonicalRoute, pb_bind: &ParsedBox<BindDef>) -> (res: Self)
        ensures
            res matches SkeletonDefSignature::Concrete(c) && c.is_exported == pb_bind.value.is_export
                && c.position@ == pb_bind.position@ && c.kind == SkeletonDefSignatureKind::BindDef
                && c.def_route == def_route,
    {
        SkeletonDefSignature::Concrete(ConcreteSkeletonDefSignature {
            is_exported: pb_bind.value().is_export,
            position: pb_bind.position.duplicate(),
            kind: SkeletonDefSignatureKind::BindDef,
            def_route,
        })
    }

    /// The signature of a submodule at `def_route`, exported or not as the
    /// box says.
    pub fn push_from_pb_module(def_route: CanonicalRoute, pb_module_is_export: &ParsedBox<bool>) -> (res: Self)
        ensures
            res matches SkeletonDefSignature::Concrete(c) && c.is_exported == pb_module_is_export.value
                && c.position@ == pb_module_is_export.position@ && c.kind == SkeletonDefSignatureKind::Module
                && c.def_route == def_route,
    {
        SkeletonDefSignature::Concrete(ConcreteSkeletonDefSignature {
            is_exported: *pb_module_is_export.value(),
            position: pb_module_is_export.position.duplicate(),
            kind: SkeletonDefSignatureKind::Module,
            def_route,
        })
    }

    /// The signature of a `use` alias at `def_route` naming `alias_route`.
    pub fn push_from_pb_use(def_route: CanonicalRoute, alias_route: Route, pb_use_is_export: &ParsedBox<Use>) -> (res: Self)
        ensures
            res matches SkeletonDefSignature::UnresolvedAlias(u) && u.is_exported == pb_use_is_export.value.is_export
                && u.position@ == pb_use_is_export.position@ && u.def_route == def_route
                && u.unresolved_route == alias_route,
    {
        SkeletonDefSignature::UnresolvedAlias(UnresolvedAliasSkeletonDefSignature {
            is_exported: pb_use_is_export.value().is_export,
            position: pb_use_is_export.position.duplicate(),
            def_route,
            unresolved_route: alias_route,
        })
    }

    /// The signature of a module that no statement defines (a cell's root
    /// module), with the synthetic position.
    pub fn new_dummy_module(def_route: CanonicalRoute, is_exported: bool) -> (res: Self)
        ensures
            res matches SkeletonDefSignature::Concrete(c) && c.is_exported == is_exported
                && c.position@.path == "<synthetic>"@ && c.position.start == 0 && c.position.end == 0
                && c.position.start_line == 0 && c.position.start_column == 0
                && c.position.end_line == 0 && c.position.end_column == 0
                && c.kind == SkeletonDefSignatureKind::Module && c.def_route == def_route,
    {
        SkeletonDefSignature::Concrete(ConcreteSkeletonDefSignature {
            is_exported,
            position: ParsedPosition::synthetic(),
            kind: SkeletonDefSignatureKind::Module,
            def_route,
        })
    }
}

impl SkeletonDefSignature {
    /// Whether the signature is concrete or a resolved alias.
    pub open spec fn resolved(&self) -> bool {
        self is Concrete || self is ResolvedAlias
    }

    /// The route of the definition a resolved signature stands for.
    pub open spec fn resolved_route(&self) -> Route {
        match self {
            SkeletonDefSignature::Concrete(c) => c.def_route,
            SkeletonDefSignature::ResolvedAlias(r) => r.resolved_route,
            _ => arbitrary(),
        }
    }

    /// The kind of the definition a resolved signature stands for.
    pub open spec fn resolved_kind(&self) -> SkeletonDefSignatureKind {
        match self {
            SkeletonDefSignature::Concrete(c) => c.kind,
            SkeletonDefSignature::ResolvedAlias(r) => r.kind,
            _ => arbitrary(),
        }
    }

    /// Whether the signature is concrete or a resolved alias.
    pub fn is_resolved(&self) -> (res: bool)
        ensures
            res == self.resolved(),
    {
        match self {
            SkeletonDefSignature::Concrete(_) => true,
            SkeletonDefSignature::ResolvedAlias(_) => true,
            _ => false,
        }
    }

    /// The route of the definition a resolved signature stands for.
    pub fn get_resolved_route(&self) -> (res: CanonicalRoute)
        requires
            self.resolved(),
        ensures
            res@ == self.resolved_route()@,
    {
        match self {
            SkeletonDefSignature::Concrete(concrete) => concrete.def_route.duplicate(),
            SkeletonDefSignature::ResolvedAlias(resolved) => resolved.resolved_route.duplicate(),
            _ => Route { root: crate::cell::CellSignature { name: String::new() }, path: Vec::new() },
        }
    }

    /// The kind of the definition a resolved signature stands for.
    pub fn get_resolved_kind(&self) -> (res: SkeletonDefSignatureKind)
        requires
            self.resolved(),
        ensures
            res == self.resolved_kind(),
    {
        match self {
            SkeletonDefSignature::ResolvedAlias(resolved) => resolved.kind,
            SkeletonDefSignature::Concrete(concrete) => concrete.kind,
            _ => SkeletonDefSignatureKind::Module,
        }
    }

    /// Where the definition was written; not for an erroneous alias.
    pub fn get_position(&self) -> (res: ParsedPosition)
        requires
            !(self is ErrorAlias),
        ensures
            res@ == match self {
                SkeletonDefSignature::Concrete(c) => c.position@,
                SkeletonDefSignature::UnresolvedAlias(u) => u.position@,
                SkeletonDefSignature::ResolvedAlias(r) => r.position@,
                SkeletonDefSignature::ErrorAlias(_) => arbitrary(),
            },
    {
        match self {
            SkeletonDefSignature::Concrete(concrete) => concrete.position.duplicate(),
            SkeletonDefSignature::UnresolvedAlias(unresolved) => unresolved.position.duplicate(),
            SkeletonDefSignature::ResolvedAlias(resolved) => resolved.position.duplicate(),
            SkeletonDefSignature::ErrorAlias(_) => ParsedPosition::synthetic(),
        }
    }

    /// Whether the definition is exported; not for an erroneous alias.
    pub fn is_exported(&self) -> (res: bool)
        requires
            !(self is ErrorAlias),
        ensures
            res == match self {
                SkeletonDefSignature::Concrete(c) => c.is_exported,
                SkeletonDefSignature::UnresolvedAlias(u) => u.is_exported,
                SkeletonDefSignature::ResolvedAlias(r) => r.is_exported,
                SkeletonDefSignature::ErrorAlias(_) => false,
            },
    {
        match self {
            SkeletonDefSignature::Concrete(concrete) => concrete.is_exported,
            SkeletonDefSignature::UnresolvedAlias(unresolved) => unresolved.is_exported,
            SkeletonDefSignature::ResolvedAlias(resolved) => resolved.is_exported,
            SkeletonDefSignature::ErrorAlias(_) => false,
        }
    }

    /// Whether this is an alias that could not be resolved.
    pub fn is_error(&self) -> (res: bool)
        ensures
            res == (self is ErrorAlias),
    {
        match self {
            SkeletonDefSignature::ErrorAlias(_) => true,
            _ => false,
        }
    }

    /// Whether this is not an alias that could not be resolved.
    pub fn is_not_error(&self) -> (res: bool)
        ensures
            res == !(self is ErrorAlias),
    {
        !self.is_error()
    }
}

} // verus!
