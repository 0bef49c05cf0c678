use vstd::prelude::*;
use crate::lexer::Operator;
use crate::parsed::{Identifier, ParsedBox, RoutedIdentifier};

verus! {

/// A shape definition: whether it is exported, its signature and the
/// type it defines the shape as.
#[derive(Debug)]
pub struct ShapeDef {
    pub is_export: bool,
    pub signature: ParsedBox<ShapeSignature>,
    pub type_expr: ParsedBox<Type>,
}

/// The signature of a shape definition: its name, its generic parameters,
/// the shape it is annotated to lie under, and its pattern variables, each
/// a name and a type.
#[derive(Debug)]
pub struct ShapeSignature {
    pub id: ParsedBox<Identifier>,
    pub template_def: Option<ParsedBox<TemplateDef>>,
    pub annotated_type: Option<ParsedBox<Type>>,
    pub args: Option<ParsedBox<Vec<ParsedBox<(ParsedBox<Identifier>, ParsedBox<Type>)>>>>,
}

/// An operation definition: whether it is exported, its name, its generic
/// parameters and its function.
#[derive(Debug)]
pub struct OperationDef {
    pub is_export: bool,
    pub name: ParsedBox<Identifier>,
    pub template_def: Option<ParsedBox<TemplateDef>>,
    pub function_def: ParsedBox<FunctionDef>,
}

/// A bind definition: whether it is exported, its name, its generic
/// parameters and its function.
#[derive(Debug)]
pub struct BindDef {
    pub is_export: bool,
    pub name: ParsedBox<Identifier>,
    pub template_def: Option<ParsedBox<TemplateDef>>,
    pub function_def: ParsedBox<FunctionDef>,
}

/// A `use` statement: `use a::b::c` or `use a::b::c as d`.  The name it
/// defines is `name` where one is given, and the last name of the route
/// otherwise.
#[derive(Debug)]
pub struct Use {
    pub is_export: bool,
    pub name: Option<ParsedBox<Identifier>>,
    pub routed_name: ParsedBox<RoutedIdentifier>,
}

/// A coerce statement: its generic parameters and the function that
/// coerces.
#[derive(Debug)]
pub struct Coerce {
    pub template_def: Option<ParsedBox<TemplateDef>>,
    pub function_def: ParsedBox<FunctionDef>,
}

/// Where an overloaded operator stands relative to its operands.
#[derive(Debug, Clone, Copy, PartialEq, Eq)]
pub enum OperatorOverloadAnnotation {
    Prefix,
    Infix,
    Postfix,
}

/// An operator overload statement: where the operator stands, the
/// operator, its generic parameters and the function it stands for.
#[derive(Debug)]
pub struct OperatorOverload {
    pub annotation: OperatorOverloadAnnotation,
    pub operator: ParsedBox<Operator>,
    pub template_def: Option<ParsedBox<TemplateDef>>,
    pub function_def: ParsedBox<FunctionDef>,
}

/// A block of statements in a closure body; shape resolution carries it
/// along unchanged.
#[derive(Debug)]
pub struct SequentialBlock {
    pub text: String,
}

/// An expression (such as a parameter's default value); shape resolution
/// carries it along unchanged.
#[derive(Debug)]
pub struct Expr {
    pub text: String,
}

/// A module block `mod name { ... }` with its statements.
#[derive(Debug)]
pub struct Module {
    pub is_export: bool,
    pub module_name: ParsedBox<Identifier>,
    pub module_stmts: DefinitionStmts,
}

/// A statement that may stand at the top level of a module.
#[derive(Debug)]
pub enum DefinitionStmt {
    Empty,
    Shape(ParsedBox<ShapeDef>),
    Operation(ParsedBox<OperationDef>),
    BindDef(ParsedBox<BindDef>),
    SubModule(ParsedBox<Module>),
    Coerce(ParsedBox<Coerce>),
    Operator(ParsedBox<OperatorOverload>),
    Use(ParsedBox<Use>),
}

/// The statements of a module, in source order.
#[derive(Debug)]
pub struct DefinitionStmts(pub Vec<ParsedBox<DefinitionStmt>>);

/// A parsed source file: the statements of a cell's root module.
#[derive(Debug)]
pub struct Program {
    pub stmts: DefinitionStmts,
}

/// The variance a written type is annotated with.
#[derive(Debug, Clone, Copy, PartialEq, Eq)]
pub enum TypeAnnotation {
    Covariant,
    Contravariant,
    Invariant,
}

/// A written type with its variance annotation.
#[derive(Debug)]
pub struct Type {
    pub annotation: TypeAnnotation,
    pub gut: TypeGut,
}

/// The form of a written type.
#[derive(Debug)]
pub enum TypeGut {
    Unit,
    Identifier(IdentifierType),
    ParenSingle(Box<ParsedBox<Type>>),
    Tuple(TupleType),
    Array(Box<ParsedBox<Type>>),
    Mapping(Box<ParsedBox<Type>>, Box<ParsedBox<Type>>),
    Struct(StructType),
    Function(Vec<ParsedBox<Type>>, Box<ParsedBox<Type>>),
    Union(Box<ParsedBox<Type>>, Box<ParsedBox<Type>>),
    Intersection(Box<ParsedBox<Type>>, Box<ParsedBox<Type>>),
}

/// A type named by a routed name, with generic arguments where some are
/// given: `a::b::Shape<T, U>`.
#[derive(Debug)]
pub struct IdentifierType {
    pub rid: ParsedBox<RoutedIdentifier>,
    pub template_call: Option<ParsedBox<TemplateCall>>,
}

/// The generic arguments given to a named type.
#[derive(Debug)]
pub struct TemplateCall {
    pub args: Vec<ParsedBox<Type>>,
}

/// The generic parameters a definition declares: each a name, with a
/// guarding type where one is written.
#[derive(Debug)]
pub struct TemplateDef {
    pub args: Vec<ParsedBox<(ParsedBox<Identifier>, Option<ParsedBox<Type>>)>>,
}

/// A tuple type: its entries in order.
#[derive(Debug)]
pub struct TupleType {
    pub entries: Vec<ParsedBox<Type>>,
}

/// A struct type: its fields in order.
#[derive(Debug)]
pub struct StructType {
    pub entries: Vec<ParsedBox<StructCase>>,
}

/// A field of a struct type: its name, and either its type or the
/// pattern variable whose type it takes.
#[derive(Debug)]
pub struct StructCase {
    pub id: ParsedBox<Identifier>,
    pub value: StructCaseValue,
}

/// How a struct field gives its type: written out, or by the pattern
/// variable it is assigned from.
#[derive(Debug)]
pub enum StructCaseValue {
    Typed(ParsedBox<Type>),
    Assigned(ParsedBox<Identifier>),
}

/// A function written out: its parameters, each a name, a type and
/// possibly a default value, and its body.
#[derive(Debug)]
pub struct FunctionDef {
    pub args: Vec<ParsedBox<(ParsedBox<Identifier>, ParsedBox<Type>, Option<ParsedBox<Expr>>)>>,
    pub body: ParsedBox<FunctionBlock>,
}

/// The body of a function: a block with the type it returns, where one is
/// written, or another function that it returns.
#[derive(Debug)]
pub enum FunctionBlock {
    SequentialBlock(Option<ParsedBox<Type>>, ParsedBox<SequentialBlock>),
    FunctionDef(Box<ParsedBox<FunctionDef>>),
}

impl Use {
    /// The name the statement defines, as text.
    pub open spec fn defined_name(&self) -> Seq<char> {
        match self.name {
            Some(pb) => pb.value.name@,
            None => self.routed_name.value.this_id.value.name@,
        }
    }
}

} // verus!
