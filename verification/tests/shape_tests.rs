use cync::computable_shape::IsSubShapeResult;
use cync::elementary_shape::{ElementaryPShape, ElementaryShape, IntWidth, core_type_from_name};
use cync::lookup_canonical_route::GrandModuleSkeletonTable;
use cync::module_merge::GrandModuleMergeTable;
use cync::parsed::ParsedPosition;
use cync::route::Route;
use cync::cell::CellSignature;
use cync::shape_data::{ShapeDescription, ShapeDescriptionContext, ShapeDescriptionGut, ShapeVarianceAnnotation};
use cync::shape_keys::{ComputableShapeKey, ShapeDescriptionContextKey, ShapeDescriptionKey};
use cync::shape_summary::GrandShapeContentSummaryAtWork;
use cync::subshape::{both, either};

fn ep(gut: ElementaryShape) -> ElementaryPShape {
    ElementaryPShape { gut, position: None }
}

fn context(w: &mut GrandShapeContentSummaryAtWork) -> ShapeDescriptionContextKey {
    w.new_shape_description_context(ShapeDescriptionContext {
        module_route: Route::new(CellSignature::new("core".to_string())),
        generic_param_key: None,
        definition_pattern_variable_types: None,
    })
}

fn describe(w: &mut GrandShapeContentSummaryAtWork, ctx: ShapeDescriptionContextKey, gut: ShapeDescriptionGut) -> ShapeDescriptionKey {
    w.new_shape_description(ShapeDescription {
        context_key: ctx,
        annotation: ShapeVarianceAnnotation::Covariant,
        gut,
        pos: ParsedPosition::synthetic(),
    })
}

fn ask(w: &mut GrandShapeContentSummaryAtWork, a: ShapeDescriptionKey, b: ShapeDescriptionKey) -> IsSubShapeResult {
    w.shape_description_is_subshape(&a, &b).unwrap()
}

#[test]
fn elementary_subsets() {
    assert!(ElementaryPShape::pairwise_is_subset(&ep(ElementaryShape::Empty), &ep(ElementaryShape::Bool)));
    assert!(ElementaryPShape::pairwise_is_subset(&ep(ElementaryShape::Bool), &ep(ElementaryShape::Any)));
    assert!(!ElementaryPShape::pairwise_is_subset(&ep(ElementaryShape::Any), &ep(ElementaryShape::Bool)));
    assert!(!ElementaryPShape::pairwise_is_subset(&ep(ElementaryShape::Bool), &ep(ElementaryShape::Unit)));
    assert!(ElementaryPShape::pairwise_is_subset(
        &ep(ElementaryShape::Int(IntWidth::UnsignedBit8)),
        &ep(ElementaryShape::Int(IntWidth::UnsignedBit16))
    ));
}

#[test]
fn elementary_names() {
    assert_eq!(ElementaryShape::Int(IntWidth::SignedBit64).to_text(), "I64");
    assert_eq!(core_type_from_name(&"Bool".to_string()), Some(ElementaryShape::Bool));
    assert_eq!(core_type_from_name(&"Nope".to_string()), None);
}

#[test]
fn answers_combine() {
    assert_eq!(both(IsSubShapeResult::True, IsSubShapeResult::Stuck), IsSubShapeResult::Stuck);
    assert_eq!(both(IsSubShapeResult::OverCost, IsSubShapeResult::False), IsSubShapeResult::False);
    assert_eq!(either(IsSubShapeResult::False, IsSubShapeResult::Stuck), IsSubShapeResult::Stuck);
    assert_eq!(either(IsSubShapeResult::True, IsSubShapeResult::False), IsSubShapeResult::True);
}

#[test]
fn description_subshape_questions() {
    let gmst = GrandModuleSkeletonTable::new_empty();
    let mut w = GrandShapeContentSummaryAtWork::new(&gmst, GrandModuleMergeTable::new_empty());
    let ctx = context(&mut w);
    let empty = describe(&mut w, ctx, ShapeDescriptionGut::Elementary(ElementaryShape::Empty));
    let any = describe(&mut w, ctx, ShapeDescriptionGut::Elementary(ElementaryShape::Any));
    let b = describe(&mut w, ctx, ShapeDescriptionGut::Elementary(ElementaryShape::Bool));
    let u = describe(&mut w, ctx, ShapeDescriptionGut::Elementary(ElementaryShape::Unit));
    let u8s = describe(&mut w, ctx, ShapeDescriptionGut::Elementary(ElementaryShape::Int(IntWidth::UnsignedBit8)));
    let u16s = describe(&mut w, ctx, ShapeDescriptionGut::Elementary(ElementaryShape::Int(IntWidth::UnsignedBit16)));
    assert_eq!(ask(&mut w, empty, b), IsSubShapeResult::True);
    assert_eq!(ask(&mut w, b, any), IsSubShapeResult::True);
    assert_eq!(ask(&mut w, b, b), IsSubShapeResult::True);
    assert_eq!(ask(&mut w, b, u), IsSubShapeResult::False);
    assert_eq!(ask(&mut w, u8s, u16s), IsSubShapeResult::True);
    assert_eq!(ask(&mut w, u16s, u8s), IsSubShapeResult::False);

    let t1 = describe(&mut w, ctx, ShapeDescriptionGut::Tuple(vec![u8s, b]));
    let t2 = describe(&mut w, ctx, ShapeDescriptionGut::Tuple(vec![u16s, b]));
    let t3 = describe(&mut w, ctx, ShapeDescriptionGut::Tuple(vec![u16s]));
    assert_eq!(ask(&mut w, t1, t2), IsSubShapeResult::True);
    assert_eq!(ask(&mut w, t2, t1), IsSubShapeResult::False);
    assert_eq!(ask(&mut w, t1, t3), IsSubShapeResult::False);

    let bu = describe(&mut w, ctx, ShapeDescriptionGut::Union(b, u));
    assert_eq!(ask(&mut w, b, bu), IsSubShapeResult::True);
    assert_eq!(ask(&mut w, bu, b), IsSubShapeResult::False);
    assert_eq!(ask(&mut w, bu, any), IsSubShapeResult::True);

    let arr = describe(&mut w, ctx, ShapeDescriptionGut::Array(u8s));
    assert_eq!(ask(&mut w, arr, t1), IsSubShapeResult::False);

    // functions: parameters the other way round
    let f1 = describe(&mut w, ctx, ShapeDescriptionGut::Function { args: vec![u16s], ret: u8s });
    let f2 = describe(&mut w, ctx, ShapeDescriptionGut::Function { args: vec![u8s], ret: u16s });
    assert_eq!(ask(&mut w, f1, f2), IsSubShapeResult::True);
    assert_eq!(ask(&mut w, f2, f1), IsSubShapeResult::False);

    // an intersection on the right needs both sides
    let inter = describe(&mut w, ctx, ShapeDescriptionGut::Intersection(u16s, any));
    assert_eq!(ask(&mut w, u8s, inter), IsSubShapeResult::True);
}

#[test]
fn descriptions_without_a_computable_shape() {
    let gmst = GrandModuleSkeletonTable::new_empty();
    let mut w = GrandShapeContentSummaryAtWork::new(&gmst, GrandModuleMergeTable::new_empty());
    let ctx = context(&mut w);
    let b = describe(&mut w, ctx, ShapeDescriptionGut::Elementary(ElementaryShape::Bool));
    // a part stored after the shape itself cannot be translated
    let bad = describe(&mut w, ctx, ShapeDescriptionGut::Array(ShapeDescriptionKey(99)));
    assert!(w.shape_description_is_subshape(&bad, &b).is_none());
    assert!(w.get_computable_shape_key(&bad).is_none());
    let k1 = w.get_computable_shape_key(&b).unwrap();
    let k2 = w.get_computable_shape_key(&b).unwrap();
    assert_eq!(k1, k2);
}

#[test]
fn display_of_descriptions() {
    let gmst = GrandModuleSkeletonTable::new_empty();
    let mut w = GrandShapeContentSummaryAtWork::new(&gmst, GrandModuleMergeTable::new_empty());
    let ctx = context(&mut w);
    let b = describe(&mut w, ctx, ShapeDescriptionGut::Elementary(ElementaryShape::Bool));
    let u8s = describe(&mut w, ctx, ShapeDescriptionGut::Elementary(ElementaryShape::Int(IntWidth::UnsignedBit8)));
    let t = describe(&mut w, ctx, ShapeDescriptionGut::Tuple(vec![b, u8s]));
    assert_eq!(w.display_shape_definition(&t), "(Bool, U8)");
    let m = describe(&mut w, ctx, ShapeDescriptionGut::Mapping { key: b, value: u8s });
    assert_eq!(w.display_shape_definition(&m), "[Bool => U8]");
    let f = describe(&mut w, ctx, ShapeDescriptionGut::Function { args: vec![b, u8s], ret: t });
    assert_eq!(w.display_shape_definition(&f), "(Bool, U8) -> (Bool, U8)");
    let un = describe(&mut w, ctx, ShapeDescriptionGut::Union(b, u8s));
    assert_eq!(w.display_shape_definition(&un), "(Bool | U8)");
    let arr = describe(&mut w, ctx, ShapeDescriptionGut::Array(un));
    assert_eq!(w.display_shape_definition(&arr), "[(Bool | U8)]");
}

#[test]
fn a_meet_with_an_empty_shape_lies_below_any_join() {
    let gmst = GrandModuleSkeletonTable::new_empty();
    let mut w = GrandShapeContentSummaryAtWork::new(&gmst, GrandModuleMergeTable::new_empty());
    let empty = *w.ask_for_ecs_key(&ElementaryShape::Empty);
    let b = *w.ask_for_ecs_key(&ElementaryShape::Bool);
    let u = *w.ask_for_ecs_key(&ElementaryShape::Unit);
    let any = *w.ask_for_ecs_key(&ElementaryShape::Any);
    assert_eq!(w.left_meet_right_join_in_computable_shape_is_subshape(vec![b, empty], vec![u], vec![], 0), IsSubShapeResult::True);
    assert_eq!(w.left_meet_right_join_in_computable_shape_is_subshape(vec![b, u], vec![u, any], vec![], 0), IsSubShapeResult::True);
    assert_eq!(w.left_meet_right_join_in_computable_shape_is_subshape(vec![b], vec![u], vec![], 0), IsSubShapeResult::False);
    assert_eq!(w.left_meet_right_join_in_computable_shape_is_subshape(vec![b], vec![u], vec![], 200), IsSubShapeResult::OverCost);
}

#[test]
fn function_parameters_compare_the_other_way_round() {
    let gmst = GrandModuleSkeletonTable::new_empty();
    let mut w = GrandShapeContentSummaryAtWork::new(&gmst, GrandModuleMergeTable::new_empty());
    let ctx = context(&mut w);
    let b = describe(&mut w, ctx, ShapeDescriptionGut::Elementary(ElementaryShape::Bool));
    let any = describe(&mut w, ctx, ShapeDescriptionGut::Elementary(ElementaryShape::Any));
    let u = describe(&mut w, ctx, ShapeDescriptionGut::Elementary(ElementaryShape::Unit));
    let takes_any = describe(&mut w, ctx, ShapeDescriptionGut::Function { args: vec![any], ret: u });
    let takes_bool = describe(&mut w, ctx, ShapeDescriptionGut::Function { args: vec![b], ret: u });
    assert_eq!(ask(&mut w, takes_any, takes_bool), IsSubShapeResult::True);
    assert_eq!(ask(&mut w, takes_bool, takes_any), IsSubShapeResult::False);
}

#[test]
fn a_fresh_summary_records_no_answer() {
    let gmst = GrandModuleSkeletonTable::new_empty();
    let mut w = GrandShapeContentSummaryAtWork::new(&gmst, GrandModuleMergeTable::new_empty());
    let (s, t) = (ComputableShapeKey(0), ComputableShapeKey(1));
    assert!(w.find_proven_result_or_assumed(&s, &t).is_none());
    w.add_assumption(s, t);
    w.proven_false(s, t);
    assert_eq!(w.find_proven_result_or_assumed(&s, &t), Some(IsSubShapeResult::False));
    assert!(w.find_proven_result_or_assumed(&t, &s).is_none());
    assert!(!w.is_assumed(&s, &t));
}

#[test]
fn a_meet_is_compared_with_the_join_of_the_right() {
    let gmst = GrandModuleSkeletonTable::new_empty();
    let mut w = GrandShapeContentSummaryAtWork::new(&gmst, GrandModuleMergeTable::new_empty());
    let any = *w.ask_for_ecs_key(&ElementaryShape::Any);
    let b = *w.ask_for_ecs_key(&ElementaryShape::Bool);
    let u8s = *w.ask_for_ecs_key(&ElementaryShape::Int(IntWidth::UnsignedBit8));
    let u16s = *w.ask_for_ecs_key(&ElementaryShape::Int(IntWidth::UnsignedBit16));
    assert_eq!(w.left_meet_right_join_in_computable_shape_is_subshape(vec![any, any], vec![u8s, u16s], vec![], 0), IsSubShapeResult::False);
    assert_eq!(w.left_meet_right_join_in_computable_shape_is_subshape(vec![any, any], vec![b, u8s], vec![], 0), IsSubShapeResult::Stuck);
}
