use cync::ast::{
    IdentifierType, StructCase, StructCaseValue, StructType, TemplateCall, TemplateDef, TupleType, Type, TypeAnnotation,
    TypeGut,
};
use cync::cell::CellSignature;
use cync::elementary_shape::ElementaryShape;
use cync::keyed::KeyedMap;
use cync::lookup_canonical_route::GrandModuleSkeletonTable;
use cync::module_merge::GrandModuleMergeTable;
use cync::module_skeleton::{ModuleSkeleton, ModuleSkeletonTable};
use cync::parsed::{Identifier, ParsedBox, ParsedPosition, RoutedIdentifier};
use cync::route::Route;
use cync::shape_data::{
    GenericParamDef, GenericParamDescription, ShapeDescriptionContext, ShapeDescriptionGut, ShapeVarianceAnnotation,
    UnresolvedShape,
};
use cync::shape_errors::{
    ContentResolutionErrorKind, LookUpRouteErrorKind, ShapeDefinitionResolutionErrorKind,
    ShapeDescriptionResolutionErrorKind,
};
use cync::shape_keys::{ShapeDescriptionContextKey, ShapeDescriptionKey};
use cync::shape_summary::GrandShapeContentSummaryAtWork;

fn pos(start: usize) -> ParsedPosition {
    ParsedPosition {
        path: "main.cy".to_string(),
        start,
        end: start + 1,
        start_line: 1,
        start_column: start,
        end_line: 1,
        end_column: start + 1,
    }
}

fn boxed<T>(value: T, start: usize) -> ParsedBox<T> {
    ParsedBox::new(value, pos(start))
}

fn ident(name: &str) -> ParsedBox<Identifier> {
    boxed(Identifier { name: name.to_string() }, 0)
}

fn ty(gut: TypeGut, start: usize) -> ParsedBox<Type> {
    boxed(Type { annotation: TypeAnnotation::Covariant, gut }, start)
}

fn named(name: &str, args: Option<Vec<ParsedBox<Type>>>, start: usize) -> ParsedBox<Type> {
    ty(
        TypeGut::Identifier(IdentifierType {
            rid: boxed(RoutedIdentifier { route: vec![], this_id: ident(name) }, start),
            template_call: args.map(|args| boxed(TemplateCall { args }, start)),
        }),
        start,
    )
}

fn core_route() -> Route {
    Route::new(CellSignature::new("core".to_string()))
}

/// Name tables with one cell, `core`, whose root module defines nothing.
fn tables() -> GrandModuleSkeletonTable {
    let mut module_skeletons = KeyedMap::new();
    module_skeletons.insert(core_route(), ModuleSkeleton::new(core_route()));
    let mut gmst = GrandModuleSkeletonTable::new_empty();
    gmst.cell_module_skeleton_table.insert(
        CellSignature::new("core".to_string()),
        ModuleSkeletonTable {
            root: core_route(),
            module_skeletons,
            def_signatures: KeyedMap::new(),
            errors: vec![],
        },
    );
    gmst
}

fn plain_context(w: &mut GrandShapeContentSummaryAtWork) -> ShapeDescriptionContextKey {
    w.new_shape_description_context(ShapeDescriptionContext {
        module_route: core_route(),
        generic_param_key: None,
        definition_pattern_variable_types: None,
    })
}

#[test]
fn core_type_names_read_as_elementary_shapes() {
    let gmst = tables();
    let mut w = GrandShapeContentSummaryAtWork::new(&gmst, GrandModuleMergeTable::new_empty());
    let ctx = plain_context(&mut w);
    let k = w.shape_description_from_pb_type(ctx, named("Bool", None, 7)).unwrap();
    let d = w.get_shape_description(k);
    assert!(matches!(d.gut, ShapeDescriptionGut::Elementary(ElementaryShape::Bool)));
    assert_eq!(d.context_key, ctx);
    assert_eq!(d.annotation, ShapeVarianceAnnotation::Covariant);
    assert_eq!(d.pos.start, 7);
    assert!(w.gsc_summary.errors.is_empty());
}

#[test]
fn tuple_reads_its_entries_first() {
    let gmst = tables();
    let mut w = GrandShapeContentSummaryAtWork::new(&gmst, GrandModuleMergeTable::new_empty());
    let ctx = plain_context(&mut w);
    let tuple = ty(TypeGut::Tuple(TupleType { entries: vec![ty(TypeGut::Unit, 1), named("U8", None, 2)] }), 0);
    let k = w.shape_description_from_pb_type(ctx, tuple).unwrap();
    assert_eq!(k, ShapeDescriptionKey(2));
    match &w.get_shape_description(k).gut {
        ShapeDescriptionGut::Tuple(ks) => {
            assert_eq!(ks.clone(), vec![ShapeDescriptionKey(0), ShapeDescriptionKey(1)]);
        },
        _ => panic!("not a tuple"),
    }
    assert!(matches!(w.get_shape_description(ShapeDescriptionKey(0)).gut, ShapeDescriptionGut::Elementary(ElementaryShape::Unit)));
}

#[test]
fn unknown_names_and_core_types_with_arguments_are_refused() {
    let gmst = tables();
    let mut w = GrandShapeContentSummaryAtWork::new(&gmst, GrandModuleMergeTable::new_empty());
    let ctx = plain_context(&mut w);
    assert!(w.shape_description_from_pb_type(ctx, named("Nope", None, 3)).is_none());
    assert!(w.shape_description_from_pb_type(ctx, named("Bool", Some(vec![ty(TypeGut::Unit, 5)]), 4)).is_none());
    assert_eq!(w.gsc_summary.errors.len(), 2);
    match &w.gsc_summary.errors[0].kind {
        ShapeDefinitionResolutionErrorKind::LookUpRoute(e) => {
            assert!(matches!(e.kind, LookUpRouteErrorKind::UnknownRootRouteFraction));
        },
        _ => panic!("wrong error"),
    }
    match &w.gsc_summary.errors[1].kind {
        ShapeDefinitionResolutionErrorKind::ShapeDescription(e) => {
            assert!(matches!(e.kind, ShapeDescriptionResolutionErrorKind::CoreTypeTemplateCallDetected));
        },
        _ => panic!("wrong error"),
    }
}

#[test]
fn generic_variables_and_pattern_variables() {
    let gmst = tables();
    let mut w = GrandShapeContentSummaryAtWork::new(&gmst, GrandModuleMergeTable::new_empty());
    let plain = plain_context(&mut w);
    let unit = w.shape_description_from_pb_type(plain, ty(TypeGut::Unit, 0)).unwrap();
    let gk = w.new_generic_param_description(GenericParamDescription { params: vec![GenericParamDef::Variable("T".to_string())] });
    let mut patterns = KeyedMap::new();
    patterns.insert("x".to_string(), unit);
    let ctx = w.new_shape_description_context(ShapeDescriptionContext {
        module_route: core_route(),
        generic_param_key: Some(gk),
        definition_pattern_variable_types: Some(patterns),
    });
    let t = w.shape_description_from_pb_type(ctx, named("T", None, 1)).unwrap();
    match &w.get_shape_description(t).gut {
        ShapeDescriptionGut::Unresolved(UnresolvedShape::GenericVariable(n)) => assert_eq!(n, "T"),
        _ => panic!("not a generic variable"),
    }
    let before = w.gsc_summary.kv_tables.shape_description_table.len();
    assert_eq!(w.shape_description_from_pb_type(ctx, named("x", None, 2)), Some(unit));
    assert_eq!(w.gsc_summary.kv_tables.shape_description_table.len(), before);
    assert!(w.shape_description_from_pb_type(ctx, named("T", Some(vec![ty(TypeGut::Unit, 4)]), 3)).is_none());
    match &w.gsc_summary.errors[0].kind {
        ShapeDefinitionResolutionErrorKind::ShapeDescription(e) => {
            assert!(matches!(e.kind, ShapeDescriptionResolutionErrorKind::GenericVariableTemplateCallDetected));
        },
        _ => panic!("wrong error"),
    }
}

#[test]
fn struct_fields_named_twice_are_refused() {
    let gmst = tables();
    let mut w = GrandShapeContentSummaryAtWork::new(&gmst, GrandModuleMergeTable::new_empty());
    let ctx = plain_context(&mut w);
    let field = |name: &str, start: usize| boxed(
        StructCase { id: ident(name), value: StructCaseValue::Typed(ty(TypeGut::Unit, start)) },
        start,
    );
    let ok = ty(TypeGut::Struct(StructType { entries: vec![field("a", 1), field("b", 2)] }), 0);
    let k = w.shape_description_from_pb_type(ctx, ok).unwrap();
    match &w.get_shape_description(k).gut {
        ShapeDescriptionGut::Struct(m) => assert_eq!(m.len(), 2),
        _ => panic!("not a struct"),
    }
    let twice = ty(TypeGut::Struct(StructType { entries: vec![field("a", 1), field("a", 2)] }), 0);
    assert!(w.shape_description_from_pb_type(ctx, twice).is_none());
    match &w.gsc_summary.errors[0].kind {
        ShapeDefinitionResolutionErrorKind::ShapeDescription(e) => {
            assert!(matches!(&e.kind, ShapeDescriptionResolutionErrorKind::StructFieldDuplication(n) if n == "a"));
        },
        _ => panic!("wrong error"),
    }
    let sugar = ty(
        TypeGut::Struct(StructType {
            entries: vec![boxed(StructCase { id: ident("a"), value: StructCaseValue::Assigned(ident("p")) }, 1)],
        }),
        0,
    );
    assert!(w.shape_description_from_pb_type(ctx, sugar).is_none());
    match &w.gsc_summary.errors[1].kind {
        ShapeDefinitionResolutionErrorKind::ShapeDescription(e) => {
            assert!(matches!(e.kind, ShapeDescriptionResolutionErrorKind::UnexpectedAssignmentSyntaxSugarUsed));
        },
        _ => panic!("wrong error"),
    }
}

#[test]
fn template_definitions_declare_parameters_in_order() {
    let gmst = tables();
    let mut w = GrandShapeContentSummaryAtWork::new(&gmst, GrandModuleMergeTable::new_empty());
    let def = TemplateDef {
        args: vec![
            boxed((ident("T"), None), 0),
            boxed((ident("G"), Some(named("T", None, 3))), 2),
        ],
    };
    let (gk, ck) = w.unresolved_shape_from_pb_template_def(core_route(), boxed(def, 0)).unwrap();
    let params = &w.get_generic_param_description(gk).params;
    assert_eq!(params.len(), 2);
    assert!(matches!(&params[0], GenericParamDef::Variable(n) if n == "T"));
    let guard = match &params[1] {
        GenericParamDef::Guarded(n, k) => {
            assert_eq!(n, "G");
            *k
        },
        _ => panic!("not guarded"),
    };
    assert!(matches!(&w.get_shape_description(guard).gut, ShapeDescriptionGut::Unresolved(UnresolvedShape::GenericVariable(n)) if n == "T"));
    assert_eq!(w.get_shape_description_context(ck).generic_param_key, Some(gk));

    let twice = TemplateDef { args: vec![boxed((ident("T"), None), 0), boxed((ident("T"), None), 1)] };
    assert!(w.unresolved_shape_from_pb_template_def(core_route(), boxed(twice, 0)).is_none());
    match &w.gsc_summary.errors[0].kind {
        ShapeDefinitionResolutionErrorKind::ContentResolution(e) => {
            assert!(matches!(&e.kind, ContentResolutionErrorKind::DuplicateGenericVariableDefinition(n) if n == "T"));
        },
        _ => panic!("wrong error"),
    }
}

#[test]
fn template_call_reads_every_argument() {
    let gmst = tables();
    let mut w = GrandShapeContentSummaryAtWork::new(&gmst, GrandModuleMergeTable::new_empty());
    let ctx = plain_context(&mut w);
    let call = TemplateCall { args: vec![ty(TypeGut::Unit, 0), named("Bool", None, 1)] };
    let ks = w.unresolved_shape_from_pb_template_call(ctx, boxed(call, 0)).unwrap();
    assert_eq!(ks, vec![ShapeDescriptionKey(0), ShapeDescriptionKey(1)]);
    let bad = TemplateCall { args: vec![named("Nope", None, 0), named("Bool", None, 1)] };
    assert!(w.unresolved_shape_from_pb_template_call(ctx, boxed(bad, 0)).is_none());
    assert_eq!(w.gsc_summary.errors.len(), 1);
}

#[test]
fn compound_types_read_part_by_part() {
    let gmst = tables();
    let mut w = GrandShapeContentSummaryAtWork::new(&gmst, GrandModuleMergeTable::new_empty());
    let ctx = plain_context(&mut w);
    let map = ty(TypeGut::Mapping(Box::new(named("U8", None, 1)), Box::new(named("Bool", None, 2))), 0);
    let k = w.shape_description_from_pb_type(ctx, map).unwrap();
    match &w.get_shape_description(k).gut {
        ShapeDescriptionGut::Mapping { key, value } => {
            assert!(matches!(w.get_shape_description(*key).gut, ShapeDescriptionGut::Elementary(ElementaryShape::Int(_))));
            assert!(matches!(w.get_shape_description(*value).gut, ShapeDescriptionGut::Elementary(ElementaryShape::Bool)));
        },
        _ => panic!("not a mapping"),
    }
    let f = ty(TypeGut::Function(vec![ty(TypeGut::Unit, 4)], Box::new(ty(TypeGut::Array(Box::new(named("Any", None, 6))), 5))), 3);
    let k = w.shape_description_from_pb_type(ctx, f).unwrap();
    match &w.get_shape_description(k).gut {
        ShapeDescriptionGut::Function { args, ret } => {
            assert_eq!(args.len(), 1);
            assert!(matches!(w.get_shape_description(*ret).gut, ShapeDescriptionGut::Array(_)));
        },
        _ => panic!("not a function"),
    }
    // A union with a part that does not read is refused as a whole.
    let u = ty(TypeGut::Union(Box::new(ty(TypeGut::Unit, 8)), Box::new(named("Nope", None, 9))), 7);
    let before = w.gsc_summary.kv_tables.shape_description_table.len();
    assert!(w.shape_description_from_pb_type(ctx, u).is_none());
    assert_eq!(w.gsc_summary.kv_tables.shape_description_table.len(), before + 1);
    assert_eq!(w.gsc_summary.errors.len(), 1);
}
