use cync::cell::CellSignature;
use cync::computable_shape::IsSubShapeResult;
use cync::elementary_shape::{ElementaryShape, IntWidth};
use cync::lookup_canonical_route::GrandModuleSkeletonTable;
use cync::module_merge::GrandModuleMergeTable;
use cync::parsed::ParsedPosition;
use cync::route::Route;
use cync::shape_data::{
    GenericParamDef, GenericParamDescription, ShapeContent, ShapeContentHeadKey, ShapeDescription, ShapeDescriptionContext,
    ShapeDescriptionGut, ShapeVarianceAnnotation, UnresolvedShape,
};
use cync::shape_errors::{ShapeContentCheckErrorKind, ShapeDefinitionResolutionErrorKind};
use cync::shape_keys::{GenericParamDescriptionKey, ShapeDescriptionContextKey, ShapeDescriptionKey};
use cync::shape_summary::GrandShapeContentSummaryAtWork;

fn box_route() -> Route {
    Route::new_from_vec_str(CellSignature::new("core".to_string()), vec!["Box".to_string()])
}

fn describe(w: &mut GrandShapeContentSummaryAtWork, ctx: ShapeDescriptionContextKey, gut: ShapeDescriptionGut) -> ShapeDescriptionKey {
    w.new_shape_description(ShapeDescription {
        context_key: ctx,
        annotation: ShapeVarianceAnnotation::Covariant,
        gut,
        pos: ParsedPosition::synthetic(),
    })
}

/// Defines `Box<T, G: Bool>` whose body is `T`, and hands back the plain
/// context, the key of `Bool` and the generic parameters.
fn define_box(w: &mut GrandShapeContentSummaryAtWork) -> (ShapeDescriptionContextKey, ShapeDescriptionKey, GenericParamDescriptionKey) {
    let plain = w.new_shape_description_context(ShapeDescriptionContext {
        module_route: Route::new(CellSignature::new("core".to_string())),
        generic_param_key: None,
        definition_pattern_variable_types: None,
    });
    let b = describe(w, plain, ShapeDescriptionGut::Elementary(ElementaryShape::Bool));
    let gk = w.new_generic_param_description(GenericParamDescription {
        params: vec![GenericParamDef::Variable("T".to_string()), GenericParamDef::Guarded("G".to_string(), b)],
    });
    let generic = w.new_shape_description_context(ShapeDescriptionContext {
        module_route: Route::new(CellSignature::new("core".to_string())),
        generic_param_key: Some(gk),
        definition_pattern_variable_types: None,
    });
    let body = describe(w, generic, ShapeDescriptionGut::Unresolved(UnresolvedShape::GenericVariable("T".to_string())));
    w.new_shape_content_head(ShapeContentHeadKey::Custom(box_route()), ShapeContent {
        key: ShapeContentHeadKey::Custom(box_route()),
        generic_params_key: Some(gk),
        annotated_supertype: None,
        context_key: generic,
        description_key: body,
    });
    (plain, b, gk)
}

#[test]
fn wrong_number_of_generic_arguments_is_an_error() {
    let gmst = GrandModuleSkeletonTable::new_empty();
    let mut w = GrandShapeContentSummaryAtWork::new(&gmst, GrandModuleMergeTable::new_empty());
    let (plain, b, _) = define_box(&mut w);
    let u8s = describe(&mut w, plain, ShapeDescriptionGut::Elementary(ElementaryShape::Int(IntWidth::UnsignedBit8)));
    let one = describe(&mut w, plain, ShapeDescriptionGut::Unresolved(UnresolvedShape::Specified(box_route(), vec![u8s])));
    let head = ShapeContentHeadKey::Prelude(ElementaryShape::Unit);
    let tasks = w.does_in_shape_generic_size_fit(&head, &one);
    assert!(tasks.is_empty());
    assert_eq!(w.gsc_summary.errors.len(), 1);
    match &w.gsc_summary.errors[0].kind {
        ShapeDefinitionResolutionErrorKind::ShapeContentCheck(c) => match &c.kind {
            ShapeContentCheckErrorKind::GenericParamSizeIncompatible { expected, found, shape_route } => {
                assert_eq!((*expected, *found), (1, 2));
                assert!(shape_route.same_as(&box_route()));
            },
            _ => panic!("wrong error"),
        },
        _ => panic!("wrong error"),
    }
    let two = describe(&mut w, plain, ShapeDescriptionGut::Unresolved(UnresolvedShape::Specified(box_route(), vec![u8s, b])));
    let tasks = w.does_in_shape_generic_size_fit(&head, &two);
    assert_eq!(tasks.len(), 1);
    assert_eq!(tasks[0].2, b);
    assert_eq!(tasks[0].3, b);
    assert_eq!(w.gsc_summary.errors.len(), 1);
}

#[test]
fn failing_guards_are_reported() {
    let gmst = GrandModuleSkeletonTable::new_empty();
    let mut w = GrandShapeContentSummaryAtWork::new(&gmst, GrandModuleMergeTable::new_empty());
    let (plain, b, _) = define_box(&mut w);
    let u8s = describe(&mut w, plain, ShapeDescriptionGut::Elementary(ElementaryShape::Int(IntWidth::UnsignedBit8)));
    // a shape whose body uses Box<U8, U8>: U8 is no Bool
    let bad = describe(&mut w, plain, ShapeDescriptionGut::Unresolved(UnresolvedShape::Specified(box_route(), vec![u8s, u8s])));
    let user = Route::new_from_vec_str(CellSignature::new("core".to_string()), vec!["User".to_string()]);
    w.new_shape_content_head(ShapeContentHeadKey::Custom(user.duplicate()), ShapeContent {
        key: ShapeContentHeadKey::Custom(user),
        generic_params_key: None,
        annotated_supertype: None,
        context_key: plain,
        description_key: bad,
    });
    let _ = b;
    w.check_shape_content_generic();
    let guard_failures = w.gsc_summary.errors.iter().filter(|e| match &e.kind {
        ShapeDefinitionResolutionErrorKind::ShapeContentCheck(c) => matches!(c.kind, ShapeContentCheckErrorKind::GenericGuardFails { .. }),
        _ => false,
    }).count();
    assert_eq!(guard_failures, 1);
}

#[test]
fn generic_bodies_take_their_arguments() {
    let gmst = GrandModuleSkeletonTable::new_empty();
    let mut w = GrandShapeContentSummaryAtWork::new(&gmst, GrandModuleMergeTable::new_empty());
    let (plain, b, _) = define_box(&mut w);
    let u8s = describe(&mut w, plain, ShapeDescriptionGut::Elementary(ElementaryShape::Int(IntWidth::UnsignedBit8)));
    let u16s = describe(&mut w, plain, ShapeDescriptionGut::Elementary(ElementaryShape::Int(IntWidth::UnsignedBit16)));
    let k8 = w.get_computable_shape_key(&u8s).unwrap();
    let sub = w.substitute_simple_shape(box_route(), &vec![k8]).unwrap();
    assert_eq!(sub, k8);
    let small = describe(&mut w, plain, ShapeDescriptionGut::Unresolved(UnresolvedShape::Specified(box_route(), vec![u8s, b])));
    let large = describe(&mut w, plain, ShapeDescriptionGut::Unresolved(UnresolvedShape::Specified(box_route(), vec![u16s, b])));
    assert_eq!(w.shape_description_is_subshape(&small, &large), Some(IsSubShapeResult::True));
    assert_eq!(w.shape_description_is_subshape(&large, &small), Some(IsSubShapeResult::False));
    // the answers are recorded and given again
    let ks = w.get_computable_shape_key(&small).unwrap();
    let kl = w.get_computable_shape_key(&large).unwrap();
    assert!(w.is_proven_true(&ks, &kl));
    assert!(w.is_proven_false(&kl, &ks));
    assert_eq!(w.find_proven_result_or_assumed(&ks, &kl), Some(IsSubShapeResult::True));
    assert_eq!(w.computable_shape_is_subshape(ks, kl), IsSubShapeResult::True);
}

#[test]
fn unknown_shapes_are_undecided() {
    let gmst = GrandModuleSkeletonTable::new_empty();
    let mut w = GrandShapeContentSummaryAtWork::new(&gmst, GrandModuleMergeTable::new_empty());
    let plain = w.new_shape_description_context(ShapeDescriptionContext {
        module_route: Route::new(CellSignature::new("core".to_string())),
        generic_param_key: None,
        definition_pattern_variable_types: None,
    });
    let nowhere = Route::new_from_vec_str(CellSignature::new("core".to_string()), vec!["Nowhere".to_string()]);
    let u = describe(&mut w, plain, ShapeDescriptionGut::Unresolved(UnresolvedShape::Specified(nowhere, vec![])));
    let b = describe(&mut w, plain, ShapeDescriptionGut::Elementary(ElementaryShape::Bool));
    assert_eq!(w.shape_description_is_subshape(&u, &b), Some(IsSubShapeResult::Stuck));
    assert!(w.substitute_simple_shape(
        Route::new_from_vec_str(CellSignature::new("core".to_string()), vec!["Nowhere".to_string()]),
        &vec![]
    ).is_none());
}
