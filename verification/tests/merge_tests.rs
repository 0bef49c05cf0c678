use cync::ast::{DefinitionStmt, DefinitionStmts, ShapeDef, ShapeSignature, Type, TypeAnnotation, TypeGut, Use};
use cync::cell::CellSignature;
use cync::module_merge::MergedModule;
use cync::parsed::{Identifier, ParsedBox, ParsedPosition, RoutedIdentifier};
use cync::route::Route;

fn pb<T>(v: T) -> ParsedBox<T> {
    ParsedBox::new(v, ParsedPosition::synthetic())
}

fn ident(name: &str) -> ParsedBox<Identifier> {
    pb(Identifier { name: name.to_string() })
}

fn shape(name: &str, export: bool) -> ParsedBox<DefinitionStmt> {
    let signature = ShapeSignature { id: ident(name), template_def: None, annotated_type: None, args: None };
    let type_expr = pb(Type { annotation: TypeAnnotation::Covariant, gut: TypeGut::Unit });
    pb(DefinitionStmt::Shape(pb(ShapeDef { is_export: export, signature: pb(signature), type_expr })))
}

fn use_stmt(path: &[&str], last: &str) -> ParsedBox<DefinitionStmt> {
    let routed = RoutedIdentifier { route: path.iter().map(|p| ident(p)).collect(), this_id: ident(last) };
    pb(DefinitionStmt::Use(pb(Use { is_export: false, name: None, routed_name: pb(routed) })))
}

fn root() -> Route {
    Route::new_from_vec_str(CellSignature::new("m".to_string()), vec![])
}

#[test]
fn a_name_taken_twice_is_kept_once_and_reported() {
    let (m, subs) = MergedModule::new(root(), DefinitionStmts(vec![shape("A", true), shape("A", false), use_stmt(&["cell"], "A")]));
    assert_eq!(subs.len(), 0);
    assert_eq!(m.shape_def_stmts.len(), 1);
    assert!(m.shape_def_stmts.get(&"A".to_string()).unwrap().value.is_export);
    assert_eq!(m.use_stmts.len(), 0);
    assert_eq!(m.errors.len(), 2);
    assert!(m.errors.iter().all(|e| e.name == "A"));
}

#[test]
fn merging_keeps_the_first_definitions() {
    let (mut m1, _) = MergedModule::new(root(), DefinitionStmts(vec![shape("A", true)]));
    let (m2, _) = MergedModule::new(root(), DefinitionStmts(vec![shape("A", false), shape("B", false)]));
    m1.merge(root(), m2);
    assert_eq!(m1.shape_def_stmts.len(), 2);
    assert!(m1.shape_def_stmts.get(&"A".to_string()).unwrap().value.is_export);
    assert!(m1.shape_def_stmts.get(&"B".to_string()).is_some());
    assert_eq!(m1.errors.len(), 1);
    assert_eq!(m1.errors[0].name, "A");
}
