use vstd::prelude::*;
use crate::ast::{Expr, SequentialBlock};
use crate::elementary_shape::ElementaryShape;
use crate::keyed::{KeyView, KeyedMap};
use crate::parsed::{ParsedBox, ParsedPosition};
use crate::route::{Route, RouteView};
use crate::shape_keys::{
    ClosureDescriptionKey, FunctionDescriptionContextKey, FunctionDescriptionKey, GenericParamDescriptionKey,
    InClosureDescriptionContextKey, ShapeDescriptionContextKey, ShapeDescriptionKey,
};

verus! {

/// How a shape position varies with its argument.
#[derive(Debug, Clone, Copy, PartialEq, Eq, Structural)]
pub enum ShapeVarianceAnnotation {
    Covariant,
    Contravariant,
    Invariant,
}

/// A shape named in a description that is not resolved yet: a generic
/// variable, or a route with its generic arguments.
#[derive(Debug)]
pub enum UnresolvedShape {
    GenericVariable(String),
    Specified(Route, Vec<ShapeDescriptionKey>),
}

/// The form of a shape description.
#[derive(Debug)]
pub enum ShapeDescriptionGut {
    Elementary(ElementaryShape),
    Unresolved(UnresolvedShape),
    ParenSingle(ShapeDescriptionKey),
    Tuple(Vec<ShapeDescriptionKey>),
    Array(ShapeDescriptionKey),
    Mapping { key: ShapeDescriptionKey, value: ShapeDescriptionKey },
    Struct(KeyedMap<String, ShapeDescriptionKey>),
    Function { args: Vec<ShapeDescriptionKey>, ret: ShapeDescriptionKey },
    Union(ShapeDescriptionKey, ShapeDescriptionKey),
    Intersection(ShapeDescriptionKey, ShapeDescriptionKey),
}

/// A shape as written in a definition, with its context and position.
#[derive(Debug)]
pub struct ShapeDescription {
    pub context_key: ShapeDescriptionContextKey,
    pub annotation: ShapeVarianceAnnotation,
    pub gut: ShapeDescriptionGut,
    pub pos: ParsedPosition,
}

/// What a shape description is read against: its module, the generic
/// parameters in scope and the pattern variables a definition binds.
#[derive(Debug)]
pub struct ShapeDescriptionContext {
    pub module_route: Route,
    pub generic_param_key: Option<GenericParamDescriptionKey>,
    pub definition_pattern_variable_types: Option<KeyedMap<String, ShapeDescriptionKey>>,
}

/// A generic parameter of a definition: a plain variable, or one guarded
/// by a shape.
#[derive(Debug)]
pub enum GenericParamDef {
    Variable(String),
    Guarded(String, ShapeDescriptionKey),
}

impl GenericParamDef {
    /// The parameter's name.
    pub open spec fn name_of(&self) -> Seq<char> {
        match self {
            GenericParamDef::Variable(name) => name@,
            GenericParamDef::Guarded(name, _) => name@,
        }
    }

    /// The parameter's name.
    pub fn get_name(&self) -> (res: String)
        ensures
            res@ == self.name_of(),
    {
        match self {
            GenericParamDef::Variable(name) => name.clone(),
            GenericParamDef::Guarded(name, _) => name.clone(),
        }
    }
}

/// The generic parameters of a definition, in order.
#[derive(Debug)]
pub struct GenericParamDescription {
    pub params: Vec<GenericParamDef>,
}

/// A generic argument in a definition's signature.
#[derive(Debug)]
pub enum SpecifiedGenericParam {
    Variable(String),
    Specified(ShapeDescriptionKey),
}

/// The shape a definition is about: an elementary shape, or a shape
/// defined at a route with its generic arguments.
#[derive(Debug)]
pub enum SpecifiedShapeDefSignature {
    Elementary(ElementaryShape),
    Custom { route: Route, params: Vec<SpecifiedGenericParam> },
}

/// The key of a shape's contents: an elementary shape or a defined shape.
#[derive(Debug)]
pub enum ShapeContentHeadKey {
    Prelude(ElementaryShape),
    Custom(Route),
}

/// The abstract value of a shape content key.
pub enum ShapeHeadView {
    Prelude(ElementaryShape),
    Custom(RouteView),
}

impl View for ShapeContentHeadKey {
    type V = ShapeHeadView;

    open spec fn view(&self) -> ShapeHeadView {
        match self {
            ShapeContentHeadKey::Prelude(s) => ShapeHeadView::Prelude(*s),
            ShapeContentHeadKey::Custom(r) => ShapeHeadView::Custom(r@),
        }
    }
}

impl KeyView for ShapeContentHeadKey {
    fn key_eq(&self, other: &Self) -> (res: bool) {
        match (self, other) {
            (ShapeContentHeadKey::Prelude(a), ShapeContentHeadKey::Prelude(b)) => *a == *b,
            (ShapeContentHeadKey::Custom(a), ShapeContentHeadKey::Custom(b)) => a.same_as(b),
            _ => false,
        }
    }

    fn key_dup(&self) -> (res: Self) {
        match self {
            ShapeContentHeadKey::Prelude(a) => ShapeContentHeadKey::Prelude(*a),
            ShapeContentHeadKey::Custom(a) => ShapeContentHeadKey::Custom(a.duplicate()),
        }
    }
}

impl ShapeContentHeadKey {
    /// The key of the contents of the shape a signature is about.
    pub fn from_signature(signature: SpecifiedShapeDefSignature) -> (res: Self)
        ensures
            match signature {
                SpecifiedShapeDefSignature::Elementary(e) => res == ShapeContentHeadKey::Prelude(e),
                SpecifiedShapeDefSignature::Custom { route, .. } => res == ShapeContentHeadKey::Custom(route),
            },
    {
        match signature {
            SpecifiedShapeDefSignature::Elementary(elementary_shape) => ShapeContentHeadKey::Prelude(elementary_shape),
            SpecifiedShapeDefSignature::Custom { route, params: _ } => ShapeContentHeadKey::Custom(route),
        }
    }
}

/// The resolved contents of a shape definition.
#[derive(Debug)]
pub struct ShapeContent {
    pub key: ShapeContentHeadKey,
    pub generic_params_key: Option<GenericParamDescriptionKey>,
    pub annotated_supertype: Option<ShapeDescriptionKey>,
    pub context_key: ShapeDescriptionContextKey,
    pub description_key: ShapeDescriptionKey,
}

/// The key of an operation's contents: the operation's route.
#[derive(Debug)]
pub struct OperationContentHeadKey(pub Route);

impl View for OperationContentHeadKey {
    type V = RouteView;

    open spec fn view(&self) -> RouteView {
        self.0@
    }
}

impl KeyView for OperationContentHeadKey {
    fn key_eq(&self, other: &Self) -> (res: bool) {
        self.0.same_as(&other.0)
    }

    fn key_dup(&self) -> (res: Self) {
        OperationContentHeadKey(self.0.duplicate())
    }
}

/// The resolved contents of an operation definition.
#[derive(Debug)]
pub struct OperationContent {
    pub key: OperationContentHeadKey,
    pub generic_params_key: Option<GenericParamDescriptionKey>,
    pub shape_def_context_key: ShapeDescriptionContextKey,
    pub function_des_context_key: FunctionDescriptionContextKey,
    pub function_des_key: FunctionDescriptionKey,
}

/// The key of a bind's contents: the bind's route.
#[derive(Debug)]
pub struct BindContentHeadKey(pub Route);

impl View for BindContentHeadKey {
    type V = RouteView;

    open spec fn view(&self) -> RouteView {
        self.0@
    }
}

impl KeyView for BindContentHeadKey {
    fn key_eq(&self, other: &Self) -> (res: bool) {
        self.0.same_as(&other.0)
    }

    fn key_dup(&self) -> (res: Self) {
        BindContentHeadKey(self.0.duplicate())
    }
}

/// The resolved contents of a bind definition.
#[derive(Debug)]
pub struct BindContent {
    pub key: BindContentHeadKey,
    pub generic_params_key: Option<GenericParamDescriptionKey>,
    pub shape_def_context_key: ShapeDescriptionContextKey,
    pub function_des_context_key: FunctionDescriptionContextKey,
    pub function_des_key: FunctionDescriptionKey,
    pub binded_shape: SpecifiedShapeDefSignature,
}

/// The prefix operators that can be overloaded.
#[derive(Debug, Clone, Copy, PartialEq, Eq, Structural)]
pub enum PrefixOperatorKind {
    Increment,
    Decrement,
    Add,
    Sub,
    Reference,
    Dereference,
    Question,
    Exclamation,
    BitNot,
}

/// The infix operators that can be overloaded.
#[derive(Debug, Clone, Copy, PartialEq, Eq, Structural)]
pub enum InfixOperatorKind {
    Dot,
    Exclamation,
    Question,
    Pow,
    IntDiv,
    Mul,
    Div,
    Mod,
    Add,
    Sub,
    BitShiftLeft,
    BitShiftRight,
    Gt,
    Gte,
    Lt,
    Lte,
    Eq,
    Teq,
    Neq,
    BitAnd,
    BitXor,
    BitOr,
    And,
    Or,
}

/// The postfix operators that can be overloaded.
#[derive(Debug, Clone, Copy, PartialEq, Eq, Structural)]
pub enum PostfixOperatorKind {
    Question,
    Exclamation,
    Increment,
    Decrement,
}

/// The signature of an operator overload: the operator and the shapes of
/// its operands.
#[derive(Debug)]
pub enum OperatorDefSignature {
    Prefix { prefix_op_kind: PrefixOperatorKind, operand: SpecifiedShapeDefSignature },
    Infix { operand1: SpecifiedShapeDefSignature, infix_op_kind: InfixOperatorKind, operand2: SpecifiedShapeDefSignature },
    Postfix { operand: SpecifiedShapeDefSignature, postfix_op_kind: PostfixOperatorKind },
}

/// The key of an operator's contents: the operator and the keys of its
/// operands' shapes.
#[derive(Debug)]
pub enum OperatorContentHeadKey {
    Prefix { prefix_op_kind: PrefixOperatorKind, operand: ShapeContentHeadKey },
    Infix { operand1: ShapeContentHeadKey, infix_op_kind: InfixOperatorKind, operand2: ShapeContentHeadKey },
    Postfix { operand: ShapeContentHeadKey, postfix_op_kind: PostfixOperatorKind },
}

/// The abstract value of an operator content key.
pub enum OperatorHeadView {
    Prefix(PrefixOperatorKind, ShapeHeadView),
    Infix(ShapeHeadView, InfixOperatorKind, ShapeHeadView),
    Postfix(ShapeHeadView, PostfixOperatorKind),
}

impl View for OperatorContentHeadKey {
    type V = OperatorHeadView;

    open spec fn view(&self) -> OperatorHeadView {
        match self {
            OperatorContentHeadKey::Prefix { prefix_op_kind, operand } => OperatorHeadView::Prefix(*prefix_op_kind, operand@),
            OperatorContentHeadKey::Infix { operand1, infix_op_kind, operand2 } => OperatorHeadView::Infix(
                operand1@,
                *infix_op_kind,
                operand2@,
            ),
            OperatorContentHeadKey::Postfix { operand, postfix_op_kind } => OperatorHeadView::Postfix(operand@, *postfix_op_kind),
        }
    }
}

impl KeyView for OperatorContentHeadKey {
    fn key_eq(&self, other: &Self) -> (res: bool) {
        match (self, other) {
            (
                OperatorContentHeadKey::Prefix { prefix_op_kind: k1, operand: o1 },
                OperatorContentHeadKey::Prefix { prefix_op_kind: k2, operand: o2 },
            ) => *k1 == *k2 && o1.key_eq(o2),
            (
                OperatorContentHeadKey::Infix { operand1: a1, infix_op_kind: k1, operand2: b1 },
                OperatorContentHeadKey::Infix { operand1: a2, infix_op_kind: k2, operand2: b2 },
            ) => *k1 == *k2 && a1.key_eq(a2) && b1.key_eq(b2),
            (
                OperatorContentHeadKey::Postfix { operand: o1, postfix_op_kind: k1 },
                OperatorContentHeadKey::Postfix { operand: o2, postfix_op_kind: k2 },
            ) => *k1 == *k2 && o1.key_eq(o2),
            _ => false,
        }
    }

    fn key_dup(&self) -> (res: Self) {
        match self {
            OperatorContentHeadKey::Prefix { prefix_op_kind, operand } => OperatorContentHeadKey::Prefix {
                prefix_op_kind: *prefix_op_kind,
                operand: operand.key_dup(),
            },
            OperatorContentHeadKey::Infix { operand1, infix_op_kind, operand2 } => OperatorContentHeadKey::Infix {
                operand1: operand1.key_dup(),
                infix_op_kind: *infix_op_kind,
                operand2: operand2.key_dup(),
            },
            OperatorContentHeadKey::Postfix { operand, postfix_op_kind } => OperatorContentHeadKey::Postfix {
                operand: operand.key_dup(),
                postfix_op_kind: *postfix_op_kind,
            },
        }
    }
}

/// The resolved contents of an operator overload.
#[derive(Debug)]
pub struct OperatorContent {
    pub signature: OperatorDefSignature,
    pub generic_params_key: Option<GenericParamDescriptionKey>,
    pub shape_def_context_key: ShapeDescriptionContextKey,
    pub function_des_context_key: FunctionDescriptionContextKey,
    pub function_des_key: FunctionDescriptionKey,
}

/// The key of a coercion's contents: the keys of the shapes it converts
/// from and to.
#[derive(Debug)]
pub struct CoerceContentHeadKey {
    pub from_shape: ShapeContentHeadKey,
    pub to_shape: ShapeContentHeadKey,
}

impl View for CoerceContentHeadKey {
    type V = (ShapeHeadView, ShapeHeadView);

    open spec fn view(&self) -> (ShapeHeadView, ShapeHeadView) {
        (self.from_shape@, self.to_shape@)
    }
}

impl KeyView for CoerceContentHeadKey {
    fn key_eq(&self, other: &Self) -> (res: bool) {
        self.from_shape.key_eq(&other.from_shape) && self.to_shape.key_eq(&other.to_shape)
    }

    fn key_dup(&self) -> (res: Self) {
        CoerceContentHeadKey { from_shape: self.from_shape.key_dup(), to_shape: self.to_shape.key_dup() }
    }
}

/// The signature of a coercion: the shapes it converts from and to.
#[derive(Debug)]
pub struct CoerceDefSignature {
    pub from_shape: SpecifiedShapeDefSignature,
    pub to_shape: SpecifiedShapeDefSignature,
}

/// The resolved contents of a coercion.
#[derive(Debug)]
pub struct CoerceContent {
    pub signature: CoerceDefSignature,
    pub generic_params_key: Option<GenericParamDescriptionKey>,
    pub shape_def_context_key: ShapeDescriptionContextKey,
    pub function_des_context_key: FunctionDescriptionContextKey,
    pub function_des_key: FunctionDescriptionKey,
}

/// What a function description is read against: its module and the
/// generic parameters in scope.
#[derive(Debug)]
pub struct FunctionDescriptionContext {
    pub module_route: Route,
    pub generic_params_key: Option<GenericParamDescriptionKey>,
}

/// What a closure inside a function is read against: the enclosing
/// closure's context, the module and the parameters in scope.
#[derive(Debug)]
pub struct InClosureDescriptionContext {
    pub parent_closure_description_context: Option<InClosureDescriptionContextKey>,
    pub module_route: Route,
    pub current_params: KeyedMap<String, ShapeDescriptionKey>,
}

/// The body of a closure: another closure it returns, or a block with the
/// shape it returns.
#[derive(Debug)]
pub enum ClosureDescriptionGut {
    HigherOrder(ClosureDescriptionKey),
    Closure { block: ParsedBox<SequentialBlock>, return_type: ShapeDescriptionKey },
}

/// A parameter of a closure: its name, its shape and its default value.
#[derive(Debug)]
pub struct ClosureParameterDescription {
    pub name: String,
    pub shape_description_key: ShapeDescriptionKey,
    pub default: Option<ParsedBox<Expr>>,
}

/// A closure: its parameters, its body and where it is written.
#[derive(Debug)]
pub struct ClosureDescription {
    pub params: Vec<ClosureParameterDescription>,
    pub gut: ClosureDescriptionGut,
    pub pos: ParsedPosition,
}

/// A function: its context, its shape, its closure and where it is written.
#[derive(Debug)]
pub struct FunctionDescription {
    pub context_key: FunctionDescriptionContextKey,
    pub function_shape: ShapeDescriptionKey,
    pub closure: ClosureDescriptionKey,
    pub pos: ParsedPosition,
}

} // verus!
