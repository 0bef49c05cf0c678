use vstd::prelude::*;
use crate::def_signature::SkeletonDefSignatureKind;
use crate::parsed::ParsedPosition;
use crate::route::Route;

verus! {

/// What went wrong while resolving the contents (binds, operations) of definitions.
#[derive(Debug)]
pub enum ContentResolutionErrorKind {
    DuplicateGenericVariableDefinition(String),
    InvalidBindType,
    BindOperationTypeMismatch,
    InvalidBindGenericVariable,
    DuplicatePatternVariableDefinition(String),
}

/// An error found while resolving the contents (binds, operations) of definitions. together with where it was found.
#[derive(Debug)]
pub struct ContentResolutionError {
    pub kind: ContentResolutionErrorKind,
    pub position: ParsedPosition,
}

/// The errors of this kind, in the order they were found.
pub type ContentResolutionErrors = Vec<ContentResolutionError>;

impl ContentResolutionError {
    /// A generic variable defined twice.
    pub fn duplicate_generic_variable_definition(position: ParsedPosition, generic_variable_name: String) -> (res: Self)
        ensures
            res.kind == ContentResolutionErrorKind::DuplicateGenericVariableDefinition(generic_variable_name),
            res.position == position,
    {
        Self { kind: ContentResolutionErrorKind::DuplicateGenericVariableDefinition(generic_variable_name), position }
    }

    /// A bind of something other than a named shape.
    pub fn invalid_bind_type(position: ParsedPosition) -> (res: Self)
        ensures
            res.kind == ContentResolutionErrorKind::InvalidBindType,
            res.position == position,
    {
        Self { kind: ContentResolutionErrorKind::InvalidBindType, position }
    }

    /// A bound operation whose type does not match.
    pub fn bind_operation_type_mismatch(position: ParsedPosition) -> (res: Self)
        ensures
            res.kind == ContentResolutionErrorKind::BindOperationTypeMismatch,
            res.position == position,
    {
        Self { kind: ContentResolutionErrorKind::BindOperationTypeMismatch, position }
    }

    /// A generic variable bound directly.
    pub fn invalid_bind_generic_variable(position: ParsedPosition) -> (res: Self)
        ensures
            res.kind == ContentResolutionErrorKind::InvalidBindGenericVariable,
            res.position == position,
    {
        Self { kind: ContentResolutionErrorKind::InvalidBindGenericVariable, position }
    }

    /// A pattern variable defined twice.
    pub fn duplicate_pattern_variable_definition(position: ParsedPosition, pattern_variable_name: String) -> (res: Self)
        ensures
            res.kind == ContentResolutionErrorKind::DuplicatePatternVariableDefinition(pattern_variable_name),
            res.position == position,
    {
        Self { kind: ContentResolutionErrorKind::DuplicatePatternVariableDefinition(pattern_variable_name), position }
    }
}

/// What went wrong while resolving a shape description.
#[derive(Debug)]
pub enum ShapeDescriptionResolutionErrorKind {
    StructFieldDuplication(String),
    UnexpectedAssignmentSyntaxSugarUsed,
    UnknownPatternVariable(String),
    GenericVariableTemplateCallDetected,
    CoreTypeTemplateCallDetected,
}

/// An error found while resolving a shape description. together with where it was found.
#[derive(Debug)]
pub struct ShapeDescriptionResolutionError {
    pub kind: ShapeDescriptionResolutionErrorKind,
    pub position: ParsedPosition,
}

/// The errors of this kind, in the order they were found.
pub type ShapeDescriptionResolutionErrors = Vec<ShapeDescriptionResolutionError>;

impl ShapeDescriptionResolutionError {
    /// A struct field named twice.
    pub fn struct_field_name_duplication(position: ParsedPosition, field_name: String) -> (res: Self)
        ensures
            res.kind == ShapeDescriptionResolutionErrorKind::StructFieldDuplication(field_name),
            res.position == position,
    {
        Self { kind: ShapeDescriptionResolutionErrorKind::StructFieldDuplication(field_name), position }
    }

    /// Assignment sugar where it is not allowed.
    pub fn unexpected_assignment_syntax_sugar_used(position: ParsedPosition) -> (res: Self)
        ensures
            res.kind == ShapeDescriptionResolutionErrorKind::UnexpectedAssignmentSyntaxSugarUsed,
            res.position == position,
    {
        Self { kind: ShapeDescriptionResolutionErrorKind::UnexpectedAssignmentSyntaxSugarUsed, position }
    }

    /// A pattern variable that is not defined.
    pub fn unknown_pattern_variable(position: ParsedPosition, pattern_variable_name: String) -> (res: Self)
        ensures
            res.kind == ShapeDescriptionResolutionErrorKind::UnknownPatternVariable(pattern_variable_name),
            res.position == position,
    {
        Self { kind: ShapeDescriptionResolutionErrorKind::UnknownPatternVariable(pattern_variable_name), position }
    }

    /// A generic variable given arguments.
    pub fn generic_variable_template_call_detected(position: ParsedPosition) -> (res: Self)
        ensures
            res.kind == ShapeDescriptionResolutionErrorKind::GenericVariableTemplateCallDetected,
            res.position == position,
    {
        Self { kind: ShapeDescriptionResolutionErrorKind::GenericVariableTemplateCallDetected, position }
    }

    /// A core type given arguments.
    pub fn core_type_template_call_detected(position: ParsedPosition) -> (res: Self)
        ensures
            res.kind == ShapeDescriptionResolutionErrorKind::CoreTypeTemplateCallDetected,
            res.position == position,
    {
        Self { kind: ShapeDescriptionResolutionErrorKind::CoreTypeTemplateCallDetected, position }
    }
}

/// What went wrong while resolving a function description.
#[derive(Debug)]
pub enum FunctionDescriptionResolutionErrorKind {
    ParamNameDuplication(String),
}

/// An error found while resolving a function description. together with where it was found.
#[derive(Debug)]
pub struct FunctionDescriptionResolutionError {
    pub kind: FunctionDescriptionResolutionErrorKind,
    pub position: ParsedPosition,
}

/// The errors of this kind, in the order they were found.
pub type FunctionDescriptionResolutionErrors = Vec<FunctionDescriptionResolutionError>;

impl FunctionDescriptionResolutionError {
    /// A parameter named twice.
    pub fn param_name_duplication(position: ParsedPosition, param_name: String) -> (res: Self)
        ensures
            res.kind == FunctionDescriptionResolutionErrorKind::ParamNameDuplication(param_name),
            res.position == position,
    {
        Self { kind: FunctionDescriptionResolutionErrorKind::ParamNameDuplication(param_name), position }
    }
}

/// What went wrong while looking up the route of a definition.
#[derive(Debug)]
pub enum LookUpRouteErrorKind {
    RouteExistsButKindDifferent { route: Route, expected: SkeletonDefSignatureKind, found: SkeletonDefSignatureKind },
    RouteNotFound,
    UnknownRootRouteFraction,
    SingleCellOrRelativeKeywordRouteNotAllowed,
}

/// An error found while looking up a route, together with where.
#[derive(Debug)]
pub struct LookUpRouteError {
    pub kind: LookUpRouteErrorKind,
    pub position: ParsedPosition,
}

/// The errors of route lookup, in the order they were found.
pub type LookUpRouteErrors = Vec<LookUpRouteError>;

impl LookUpRouteError {
    /// The route names a definition of another kind than expected.
    pub fn route_exists_but_kind_different(
        position: ParsedPosition,
        route: Route,
        expected: SkeletonDefSignatureKind,
        found: SkeletonDefSignatureKind,
    ) -> (res: Self)
        ensures
            res.kind == (LookUpRouteErrorKind::RouteExistsButKindDifferent { route, expected, found }),
            res.position == position,
    {
        Self { kind: LookUpRouteErrorKind::RouteExistsButKindDifferent { route, expected, found }, position }
    }

    /// The route names nothing.
    pub fn route_not_found(position: ParsedPosition) -> (res: Self)
        ensures
            res.kind == LookUpRouteErrorKind::RouteNotFound,
            res.position == position,
    {
        Self { kind: LookUpRouteErrorKind::RouteNotFound, position }
    }

    /// The first name of the route names no known root.
    pub fn unknown_root_route_fraction(position: ParsedPosition) -> (res: Self)
        ensures
            res.kind == LookUpRouteErrorKind::UnknownRootRouteFraction,
            res.position == position,
    {
        Self { kind: LookUpRouteErrorKind::UnknownRootRouteFraction, position }
    }

    /// The route is a cell name or a relative keyword alone.
    pub fn single_cell_or_relative_keyword_route_not_allowed(position: ParsedPosition) -> (res: Self)
        ensures
            res.kind == LookUpRouteErrorKind::SingleCellOrRelativeKeywordRouteNotAllowed,
            res.position == position,
    {
        Self { kind: LookUpRouteErrorKind::SingleCellOrRelativeKeywordRouteNotAllowed, position }
    }
}

/// What went wrong while checking the contents of a shape.
#[derive(Debug)]
pub enum ShapeContentCheckErrorKind {
    GenericParamSizeIncompatible { expected: usize, found: usize, shape_route: Route },
    GenericGuardFails { this_content_name: String, that_content_name: String },
}

/// An error found while checking shape contents, together with where.
#[derive(Debug)]
pub struct ShapeContentCheckError {
    pub kind: ShapeContentCheckErrorKind,
    pub position: ParsedPosition,
}

/// The errors of shape content checking, in the order they were found.
pub type ShapeContentCheckErrors = Vec<ShapeContentCheckError>;

impl ShapeContentCheckError {
    /// A shape given a number of generic arguments other than it takes.
    pub fn generic_param_size_incompatible(position: ParsedPosition, shape_route: Route, expected: usize, found: usize) -> (res: Self)
        ensures
            res.kind == (ShapeContentCheckErrorKind::GenericParamSizeIncompatible { expected, found, shape_route }),
            res.position == position,
    {
        Self { kind: ShapeContentCheckErrorKind::GenericParamSizeIncompatible { shape_route, expected, found }, position }
    }

    /// A generic guard of one content fails against another.
    pub fn generic_guard_fails(position: ParsedPosition, this_content_name: String, that_content_name: String) -> (res: Self)
        ensures
            res.kind == (ShapeContentCheckErrorKind::GenericGuardFails { this_content_name, that_content_name }),
            res.position == position,
    {
        Self { kind: ShapeContentCheckErrorKind::GenericGuardFails { this_content_name, that_content_name }, position }
    }
}

/// What went wrong while deciding a subshape question.
#[derive(Debug)]
pub enum ShapeGraphErrorKind {
    IsSubShapeStuck { subshape: String, supershape: String },
    IsSubShapeOverCost { subshape: String, supershape: String },
}

/// An error found while deciding a subshape question, together with where.
#[derive(Debug)]
pub struct ShapeGraphError {
    pub kind: ShapeGraphErrorKind,
    pub position: ParsedPosition,
}

/// The errors of subshape decisions, in the order they were found.
pub type ShapeGraphErrors = Vec<ShapeGraphError>;

impl ShapeGraphError {
    /// The question could not be decided.
    pub fn is_sub_shape_stuck(position: ParsedPosition, subshape: String, supershape: String) -> (res: Self)
        ensures
            res.kind == (ShapeGraphErrorKind::IsSubShapeStuck { subshape, supershape }),
            res.position == position,
    {
        ShapeGraphError { kind: ShapeGraphErrorKind::IsSubShapeStuck { subshape, supershape }, position }
    }

    /// The question cost too much to decide.  The error is recorded with the
    /// kind of an undecided question.
    pub fn is_sub_shape_over_cost(position: ParsedPosition, subshape: String, supershape: String) -> (res: Self)
        ensures
            res.kind == (ShapeGraphErrorKind::IsSubShapeStuck { subshape, supershape }),
            res.position == position,
    {
        ShapeGraphError { kind: ShapeGraphErrorKind::IsSubShapeStuck { subshape, supershape }, position }
    }
}

/// What went wrong while resolving shape definitions, by phase.
#[derive(Debug)]
pub enum ShapeDefinitionResolutionErrorKind {
    LookUpRoute(LookUpRouteError),
    ShapeDescription(ShapeDescriptionResolutionError),
    ContentResolution(ContentResolutionError),
    FunctionDescription(FunctionDescriptionResolutionError),
    ShapeContentCheck(ShapeContentCheckError),
    ShapeGraph(ShapeGraphError),
}

/// An error found while resolving shape definitions; its position is that
/// of the error it wraps.
#[derive(Debug)]
pub struct ShapeDefinitionResolutionError {
    pub kind: ShapeDefinitionResolutionErrorKind,
    pub position: ParsedPosition,
}

/// The errors of shape definition resolution, in the order they were found.
pub type ShapeDefinitionResolutionErrors = Vec<ShapeDefinitionResolutionError>;


impl ShapeDefinitionResolutionError {
    /// The error of a route lookup as an error of shape definition resolution, at
    /// the same position.
    pub fn from_lookup_route(error: LookUpRouteError) -> (res: Self)
        ensures
            res.position@ == error.position@,
            res.kind == ShapeDefinitionResolutionErrorKind::LookUpRoute(error),
    {
        let position = error.position.duplicate();
        ShapeDefinitionResolutionError { position, kind: ShapeDefinitionResolutionErrorKind::LookUpRoute(error) }
    }

    /// The error of content resolution as an error of shape definition resolution, at
    /// the same position.
    pub fn from_content_resolution(error: ContentResolutionError) -> (res: Self)
        ensures
            res.position@ == error.position@,
            res.kind == ShapeDefinitionResolutionErrorKind::ContentResolution(error),
    {
        let position = error.position.duplicate();
        ShapeDefinitionResolutionError { position, kind: ShapeDefinitionResolutionErrorKind::ContentResolution(error) }
    }

    /// The error of shape description resolution as an error of shape definition resolution, at
    /// the same position.
    pub fn from_shape_description(error: ShapeDescriptionResolutionError) -> (res: Self)
        ensures
            res.position@ == error.position@,
            res.kind == ShapeDefinitionResolutionErrorKind::ShapeDescription(error),
    {
        let position = error.position.duplicate();
        ShapeDefinitionResolutionError { position, kind: ShapeDefinitionResolutionErrorKind::ShapeDescription(error) }
    }

    /// The error of function description resolution as an error of shape definition resolution, at
    /// the same position.
    pub fn from_function_description(error: FunctionDescriptionResolutionError) -> (res: Self)
        ensures
            res.position@ == error.position@,
            res.kind == ShapeDefinitionResolutionErrorKind::FunctionDescription(error),
    {
        let position = error.position.duplicate();
        ShapeDefinitionResolutionError { position, kind: ShapeDefinitionResolutionErrorKind::FunctionDescription(error) }
    }

    /// The error of shape content checking as an error of shape definition resolution, at
    /// the same position.
    pub fn from_shape_content_check(error: ShapeContentCheckError) -> (res: Self)
        ensures
            res.position@ == error.position@,
            res.kind == ShapeDefinitionResolutionErrorKind::ShapeContentCheck(error),
    {
        let position = error.position.duplicate();
        ShapeDefinitionResolutionError { position, kind: ShapeDefinitionResolutionErrorKind::ShapeContentCheck(error) }
    }

    /// The error of a subshape decision as an error of shape definition resolution, at
    /// the same position.
    pub fn from_shape_graph(error: ShapeGraphError) -> (res: Self)
        ensures
            res.position@ == error.position@,
            res.kind == ShapeDefinitionResolutionErrorKind::ShapeGraph(error),
    {
        let position = error.position.duplicate();
        ShapeDefinitionResolutionError { position, kind: ShapeDefinitionResolutionErrorKind::ShapeGraph(error) }
    }
}

} // verus!
