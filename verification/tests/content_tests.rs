use cync::ast::{
    BindDef, Coerce, FunctionBlock, FunctionDef, IdentifierType, OperationDef, OperatorOverload, OperatorOverloadAnnotation,
    SequentialBlock, ShapeDef, ShapeSignature, TemplateDef, Type, TypeAnnotation, TypeGut,
};
use cync::cell::CellSignature;
use cync::elementary_shape::ElementaryShape;
use cync::keyed::KeyedMap;
use cync::lexer::Operator;
use cync::lookup_canonical_route::GrandModuleSkeletonTable;
use cync::module_merge::{GrandModuleMergeTable, MergedModule, MergedModuleTable};
use cync::module_skeleton::{ModuleSkeleton, ModuleSkeletonTable};
use cync::parsed::{Identifier, ParsedBox, ParsedPosition, RoutedIdentifier};
use cync::route::Route;
use cync::shape_data::{
    ClosureDescriptionGut, FunctionDescriptionContext, GenericParamDef, GenericParamDescription, ShapeContentHeadKey,
    ShapeDescription, ShapeDescriptionContext, ShapeDescriptionGut, ShapeVarianceAnnotation, SpecifiedGenericParam,
    SpecifiedShapeDefSignature, UnresolvedShape,
};
use cync::shape_errors::{
    ContentResolutionErrorKind, FunctionDescriptionResolutionErrorKind, ShapeDefinitionResolutionErrorKind,
};
use cync::shape_keys::{ShapeDescriptionContextKey, ShapeDescriptionKey};
use cync::shape_summary::GrandShapeContentSummaryAtWork;

fn pos(start: usize) -> ParsedPosition {
    ParsedPosition {
        path: "main.cy".to_string(),
        start,
        end: start + 1,
        start_line: 1,
        start_column: start,
        end_line: 1,
        end_column: start + 1,
    }
}

fn boxed<T>(value: T, start: usize) -> ParsedBox<T> {
    ParsedBox::new(value, pos(start))
}

fn ident(name: &str, start: usize) -> ParsedBox<Identifier> {
    boxed(Identifier { name: name.to_string() }, start)
}

fn ty(gut: TypeGut, start: usize) -> ParsedBox<Type> {
    boxed(Type { annotation: TypeAnnotation::Covariant, gut }, start)
}

fn named(name: &str, start: usize) -> ParsedBox<Type> {
    ty(
        TypeGut::Identifier(IdentifierType {
            rid: boxed(RoutedIdentifier { route: vec![], this_id: ident(name, start) }, start),
            template_call: None,
        }),
        start,
    )
}

fn core_route() -> Route {
    Route::new(CellSignature::new("core".to_string()))
}

fn tables() -> GrandModuleSkeletonTable {
    let mut module_skeletons = KeyedMap::new();
    module_skeletons.insert(core_route(), ModuleSkeleton::new(core_route()));
    let mut gmst = GrandModuleSkeletonTable::new_empty();
    gmst.cell_module_skeleton_table.insert(
        CellSignature::new("core".to_string()),
        ModuleSkeletonTable { root: core_route(), module_skeletons, def_signatures: KeyedMap::new(), errors: vec![] },
    );
    gmst
}

fn plain_context(w: &mut GrandShapeContentSummaryAtWork) -> ShapeDescriptionContextKey {
    w.new_shape_description_context(ShapeDescriptionContext {
        module_route: core_route(),
        generic_param_key: None,
        definition_pattern_variable_types: None,
    })
}

fn describe(w: &mut GrandShapeContentSummaryAtWork, ctx: ShapeDescriptionContextKey, gut: ShapeDescriptionGut) -> ShapeDescriptionKey {
    w.new_shape_description(ShapeDescription { context_key: ctx, annotation: ShapeVarianceAnnotation::Covariant, gut, pos: pos(9) })
}

/// A function with no parameters returning `ret`, at position `start`.
fn function(ret: Option<ParsedBox<Type>>, start: usize) -> ParsedBox<FunctionDef> {
    boxed(
        FunctionDef {
            args: vec![],
            body: boxed(FunctionBlock::SequentialBlock(ret, boxed(SequentialBlock { text: "{}".to_string() }, start)), start),
        },
        start,
    )
}

fn content_error<'a, 'b>(w: &'b GrandShapeContentSummaryAtWork<'a>, i: usize) -> &'b ContentResolutionErrorKind {
    match &w.gsc_summary.errors[i].kind {
        ShapeDefinitionResolutionErrorKind::ContentResolution(e) => &e.kind,
        _ => panic!("not a content error"),
    }
}

#[test]
fn bound_shapes_keep_their_non_generic_arguments() {
    let gmst = tables();
    let mut w = GrandShapeContentSummaryAtWork::new(&gmst, GrandModuleMergeTable::new_empty());
    let gk = w.new_generic_param_description(GenericParamDescription { params: vec![GenericParamDef::Variable("T".to_string())] });
    let ctx = w.new_shape_description_context(ShapeDescriptionContext {
        module_route: core_route(),
        generic_param_key: Some(gk),
        definition_pattern_variable_types: None,
    });
    let b = describe(&mut w, ctx, ShapeDescriptionGut::Elementary(ElementaryShape::Bool));
    let t = describe(&mut w, ctx, ShapeDescriptionGut::Unresolved(UnresolvedShape::GenericVariable("T".to_string())));
    let boxed_route = Route::new_from_vec_str(CellSignature::new("core".to_string()), vec!["Box".to_string()]);
    let spec = describe(&mut w, ctx, ShapeDescriptionGut::Unresolved(UnresolvedShape::Specified(boxed_route, vec![t, b])));
    assert!(matches!(w.extract_specified_shape(b), Some(SpecifiedShapeDefSignature::Elementary(ElementaryShape::Bool))));
    match w.extract_specified_shape(spec) {
        Some(SpecifiedShapeDefSignature::Custom { route, params }) => {
            assert_eq!(route.to_text(), "[core] Box");
            assert_eq!(params.len(), 1);
            assert!(matches!(params[0], SpecifiedGenericParam::Specified(k) if k == b));
        },
        _ => panic!("not a custom shape"),
    }
    assert!(w.gsc_summary.errors.is_empty());
    assert!(w.extract_specified_shape(t).is_none());
    assert!(matches!(content_error(&w, 0), ContentResolutionErrorKind::InvalidBindGenericVariable));
    let tuple = describe(&mut w, ctx, ShapeDescriptionGut::Tuple(vec![b]));
    assert!(w.extract_specified_shape(tuple).is_none());
    assert!(matches!(content_error(&w, 1), ContentResolutionErrorKind::InvalidBindType));
    assert_eq!(w.gsc_summary.errors[1].position.start, 9);
}

#[test]
fn bound_shape_of_a_function_is_that_of_its_one_parameter() {
    let gmst = tables();
    let mut w = GrandShapeContentSummaryAtWork::new(&gmst, GrandModuleMergeTable::new_empty());
    let ctx = plain_context(&mut w);
    let b = describe(&mut w, ctx, ShapeDescriptionGut::Elementary(ElementaryShape::Bool));
    let one = describe(&mut w, ctx, ShapeDescriptionGut::Function { args: vec![b], ret: b });
    let none = describe(&mut w, ctx, ShapeDescriptionGut::Function { args: vec![], ret: b });
    assert!(matches!(w.extract_binded_shape(one), Some(SpecifiedShapeDefSignature::Elementary(ElementaryShape::Bool))));
    assert!(w.extract_binded_shape(none).is_none());
    assert!(matches!(content_error(&w, 0), ContentResolutionErrorKind::BindOperationTypeMismatch));
}

#[test]
fn functions_read_into_closures_and_function_shapes() {
    let gmst = tables();
    let mut w = GrandShapeContentSummaryAtWork::new(&gmst, GrandModuleMergeTable::new_empty());
    let ctx = plain_context(&mut w);
    let fctx = w.new_function_description_context(FunctionDescriptionContext { module_route: core_route(), generic_params_key: None });
    let fk = w.function_description_from_pb_function_def(fctx, ctx, function(Some(named("Bool", 3)), 1)).unwrap();
    let f = w.get_function_description(fk);
    assert_eq!(f.context_key, fctx);
    assert_eq!(f.pos.start, 1);
    let (shape, closure) = (f.function_shape, f.closure);
    match &w.get_shape_description(shape).gut {
        ShapeDescriptionGut::Function { args, ret } => {
            assert!(args.is_empty());
            assert!(matches!(w.get_shape_description(*ret).gut, ShapeDescriptionGut::Elementary(ElementaryShape::Bool)));
        },
        _ => panic!("not a function shape"),
    }
    assert!(matches!(w.get_closure_description(closure).gut, ClosureDescriptionGut::Closure { .. }));

    // A function returning a function, with no return type: the inner one returns unit.
    let inner = function(None, 5);
    let outer = boxed(FunctionDef { args: vec![], body: boxed(FunctionBlock::FunctionDef(Box::new(inner)), 4) }, 4);
    let fk2 = w.function_description_from_pb_function_def(fctx, ctx, outer).unwrap();
    let shape2 = w.get_function_description(fk2).function_shape;
    match &w.get_shape_description(shape2).gut {
        ShapeDescriptionGut::Function { args: _, ret } => match &w.get_shape_description(*ret).gut {
            ShapeDescriptionGut::Function { args: _, ret: r2 } => {
                assert!(matches!(w.get_shape_description(*r2).gut, ShapeDescriptionGut::Elementary(ElementaryShape::Unit)));
                assert_eq!(w.get_shape_description(*r2).pos.start, 5);
            },
            _ => panic!("not a function shape"),
        },
        _ => panic!("not a function shape"),
    }
    assert!(w.gsc_summary.errors.is_empty());
}

#[test]
fn every_function_parameter_is_reported_as_named_twice() {
    let gmst = tables();
    let mut w = GrandShapeContentSummaryAtWork::new(&gmst, GrandModuleMergeTable::new_empty());
    let ctx = plain_context(&mut w);
    let fctx = w.new_function_description_context(FunctionDescriptionContext { module_route: core_route(), generic_params_key: None });
    let mut f = function(None, 1);
    f.value.args = vec![boxed((ident("x", 2), named("Bool", 3), None), 2), boxed((ident("y", 6), named("Bool", 7), None), 6)];
    assert!(w.function_description_from_pb_function_def(fctx, ctx, f).is_none());
    assert_eq!(w.gsc_summary.errors.len(), 2);
    match &w.gsc_summary.errors[1].kind {
        ShapeDefinitionResolutionErrorKind::FunctionDescription(e) => {
            assert!(matches!(&e.kind, FunctionDescriptionResolutionErrorKind::ParamNameDuplication(n) if n == "y"));
            assert_eq!(e.position.start, 6);
        },
        _ => panic!("wrong error"),
    }
}

#[test]
fn operations_are_stored_under_their_route() {
    let gmst = tables();
    let mut w = GrandShapeContentSummaryAtWork::new(&gmst, GrandModuleMergeTable::new_empty());
    let op = OperationDef { is_export: true, name: ident("run", 0), template_def: None, function_def: function(Some(named("Bool", 2)), 1) };
    let key = w.new_operation(core_route(), boxed(op, 0)).unwrap();
    assert_eq!(key.0.to_text(), "[core] run");
    let content = w.get_operation_content_head(&key);
    assert!(content.generic_params_key.is_none());
    assert_eq!(w.gsc_summary.kv_tables.operation_content_table.len(), 1);
}

#[test]
fn binds_coercions_and_operators_are_refused_for_want_of_a_parameter() {
    let gmst = tables();
    let mut w = GrandShapeContentSummaryAtWork::new(&gmst, GrandModuleMergeTable::new_empty());
    let bind = BindDef { is_export: false, name: ident("b", 0), template_def: None, function_def: function(None, 1) };
    assert!(w.new_bind(core_route(), boxed(bind, 0)).is_none());
    let coerce = Coerce { template_def: None, function_def: function(None, 2) };
    assert!(w.new_coerce(core_route(), boxed(coerce, 0)).is_none());
    let operator = OperatorOverload {
        annotation: OperatorOverloadAnnotation::Infix,
        operator: boxed(Operator::Add, 0),
        template_def: None,
        function_def: function(None, 3),
    };
    assert!(w.new_operator(core_route(), boxed(operator, 0)).is_none());
    assert_eq!(w.gsc_summary.errors.len(), 3);
    for i in 0..3 {
        assert!(matches!(content_error(&w, i), ContentResolutionErrorKind::BindOperationTypeMismatch));
        assert_eq!(w.gsc_summary.errors[i].position.start, i + 1);
    }
    assert_eq!(w.gsc_summary.kv_tables.bind_content_table.len(), 0);
}

#[test]
fn shapes_bind_pattern_variables_and_generic_parameters() {
    let gmst = tables();
    let mut w = GrandShapeContentSummaryAtWork::new(&gmst, GrandModuleMergeTable::new_empty());
    let signature = ShapeSignature {
        id: ident("Point", 0),
        template_def: Some(boxed(TemplateDef { args: vec![boxed((ident("T", 1), None), 1)] }, 1)),
        annotated_type: None,
        args: Some(boxed(vec![boxed((ident("x", 2), named("T", 3)), 2)], 2)),
    };
    let shape = ShapeDef { is_export: true, signature: boxed(signature, 0), type_expr: named("x", 5) };
    let key = w.new_shape(core_route(), boxed(shape, 0)).unwrap();
    match &key {
        ShapeContentHeadKey::Custom(r) => assert_eq!(r.to_text(), "[core] Point"),
        _ => panic!("not a custom key"),
    }
    let content = w.get_shape_content_head(&key);
    let (gk, ctx, description) = (content.generic_params_key, content.context_key, content.description_key);
    assert!(gk.is_some());
    assert!(content.annotated_supertype.is_none());
    // The type is the pattern variable `x`, bound to the description of `T`.
    match &w.get_shape_description(description).gut {
        ShapeDescriptionGut::Unresolved(UnresolvedShape::GenericVariable(n)) => assert_eq!(n, "T"),
        _ => panic!("not the generic variable"),
    }
    let c = w.get_shape_description_context(ctx);
    assert_eq!(c.generic_param_key, gk);
    assert!(c.definition_pattern_variable_types.is_some());
    assert!(w.gsc_summary.bind_name_table.contains_key(&key));

    let twice = ShapeSignature {
        id: ident("Pair", 0),
        template_def: None,
        annotated_type: None,
        args: Some(boxed(vec![boxed((ident("x", 2), named("Bool", 3)), 2), boxed((ident("x", 4), named("Bool", 5)), 4)], 2)),
    };
    let shape = ShapeDef { is_export: true, signature: boxed(twice, 0), type_expr: named("x", 6) };
    assert!(w.new_shape(core_route(), boxed(shape, 0)).is_none());
    assert!(matches!(content_error(&w, 0), ContentResolutionErrorKind::DuplicatePatternVariableDefinition(n) if n == "x"));
}

#[test]
fn contents_of_every_module_are_read_and_taken_out() {
    let gmst = tables();
    let mut merged = MergedModule::new_empty();
    let signature = ShapeSignature { id: ident("Unit2", 0), template_def: None, annotated_type: None, args: None };
    merged.shape_def_stmts.insert(
        "Unit2".to_string(),
        boxed(ShapeDef { is_export: true, signature: boxed(signature, 0), type_expr: ty(TypeGut::Unit, 1) }, 0),
    );
    merged.operation_def_stmts.insert(
        "go".to_string(),
        boxed(OperationDef { is_export: true, name: ident("go", 2), template_def: None, function_def: function(None, 3) }, 2),
    );
    let mut table = MergedModuleTable::new();
    table.m_modules.insert(core_route(), merged);
    let mut gmmt = GrandModuleMergeTable::new_empty();
    gmmt.cell_module_merge_tables.insert(CellSignature::new("core".to_string()), table);
    let mut w = GrandShapeContentSummaryAtWork::new(&gmst, gmmt);
    w.new_contents();
    let key = ShapeContentHeadKey::Custom(Route::new_from_vec_str(CellSignature::new("core".to_string()), vec!["Unit2".to_string()]));
    assert!(w.gsc_summary.shape_content_heads.contains_key(&key));
    assert_eq!(w.gsc_summary.kv_tables.operation_content_table.len(), 1);
    let cell_table = w.grand_module_merge_table.cell_module_merge_tables.get(&CellSignature::new("core".to_string())).unwrap();
    assert_eq!(cell_table.m_modules.len(), 0);
}
