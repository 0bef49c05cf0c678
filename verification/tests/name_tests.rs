use cync::ast::{DefinitionStmt, DefinitionStmts, Program, ShapeDef, ShapeSignature, Type, TypeAnnotation, TypeGut, Use};
use cync::cell::CellSignature;
use cync::def_signature::{SkeletonDefSignature, SkeletonDefSignatureKind};
use cync::dependency_graph::DependencyGraph;
use cync::keyed::{KeyedMap, KeyedSet};
use cync::lookup_canonical_route::{GrandModuleSkeletonTable, LookUpCanonicalRouteResult};
use cync::name_errors::GlobalNameAliasResolutionErrorKind;
use cync::module_merge::{GrandModuleMergeTable, MergedModuleTable};
use cync::parsed::{Identifier, ParsedBox, ParsedPosition, RoutedIdentifier};
use cync::route::Route;

fn cell(name: &str) -> CellSignature {
    CellSignature::new(name.to_string())
}

fn pb<T>(v: T) -> ParsedBox<T> {
    ParsedBox::new(v, ParsedPosition::synthetic())
}

fn ident(name: &str) -> ParsedBox<Identifier> {
    pb(Identifier { name: name.to_string() })
}

fn shape(name: &str, export: bool) -> ParsedBox<DefinitionStmt> {
    let signature = ShapeSignature { id: ident(name), template_def: None, annotated_type: None, args: None };
    let type_expr = pb(Type { annotation: TypeAnnotation::Covariant, gut: TypeGut::Unit });
    pb(DefinitionStmt::Shape(pb(ShapeDef { is_export: export, signature: pb(signature), type_expr })))
}

fn use_stmt(path: &[&str], last: &str) -> ParsedBox<DefinitionStmt> {
    let routed = RoutedIdentifier { route: path.iter().map(|p| ident(p)).collect(), this_id: ident(last) };
    pb(DefinitionStmt::Use(pb(Use { is_export: false, name: None, routed_name: pb(routed) })))
}

fn route(root: &str, path: &[&str]) -> Route {
    Route::new_from_vec_str(cell(root), path.iter().map(|s| s.to_string()).collect())
}

/// The tables of two cells: `lib` defines shapes `Point` (exported) and
/// `Hidden`; `app` depends on `lib`, under the name `lib`, and uses
/// `lib::Point`.
fn two_cells() -> GrandModuleSkeletonTable {
    let mut gmmt = GrandModuleMergeTable::new_empty();
    let mut lib_table = MergedModuleTable::new();
    lib_table.merge_program(cell("lib"), Program { stmts: DefinitionStmts(vec![shape("Point", true), shape("Hidden", false)]) });
    gmmt.cell_module_merge_tables.insert(cell("lib"), lib_table);
    let mut app_table = MergedModuleTable::new();
    app_table.merge_program(cell("app"), Program { stmts: DefinitionStmts(vec![use_stmt(&["lib"], "Point")]) });
    gmmt.cell_module_merge_tables.insert(cell("app"), app_table);

    let mut graph = DependencyGraph::new();
    for n in ["lib", "app"] {
        graph.nodes.insert(cell(n));
        let empty: KeyedSet<CellSignature> = KeyedSet::new();
        graph.nexts.insert(cell(n), empty);
    }
    graph.starts.push(cell("lib"));
    graph.connect(cell("lib"), cell("app")).unwrap();

    let mut aliases: KeyedMap<CellSignature, KeyedMap<CellSignature, String>> = KeyedMap::new();
    let mut app_aliases: KeyedMap<CellSignature, String> = KeyedMap::new();
    app_aliases.insert(cell("lib"), "lib".to_string());
    aliases.insert(cell("app"), app_aliases);
    GrandModuleSkeletonTable::new(aliases, &graph, &gmmt)
}

#[test]
fn skeletons_record_definitions() {
    let t = two_cells();
    match t.lookup_def_signature(&route("lib", &["Point"])) {
        Some(SkeletonDefSignature::Concrete(c)) => {
            assert!(c.is_exported);
            assert_eq!(c.kind, SkeletonDefSignatureKind::Shape);
        },
        _ => panic!("Point is not a concrete definition"),
    }
    match t.lookup_def_signature(&route("lib", &[])) {
        Some(SkeletonDefSignature::Concrete(c)) => assert_eq!(c.kind, SkeletonDefSignatureKind::Module),
        _ => panic!("the cell's root module has no signature"),
    }
    assert!(t.lookup_def_signature(&route("lib", &["Missing"])).is_none());
}

#[test]
fn aliases_resolve_across_cells() {
    let t = two_cells();
    match t.lookup_def_signature(&route("app", &["Point"])) {
        Some(SkeletonDefSignature::ResolvedAlias(a)) => {
            assert!(a.resolved_route.same_as(&route("lib", &["Point"])));
            assert_eq!(a.kind, SkeletonDefSignatureKind::Shape);
        },
        other => panic!("the alias was not resolved: {:?}", other),
    }
    assert_eq!(t.errors.len(), 0);
}

#[test]
fn lookups_respect_export() {
    let t = two_cells();
    match t.lookup_canonical_route(&route("lib", &["Point"]), &route("app", &[])) {
        LookUpCanonicalRouteResult::Resolved(r) => assert!(r.same_as(&route("lib", &["Point"]))),
        other => panic!("unexpected {:?}", other),
    }
    // a registered route is found whatever it is looked up from
    match t.lookup_canonical_route(&route("lib", &["Hidden"]), &route("app", &[])) {
        LookUpCanonicalRouteResult::Resolved(r) => assert!(r.same_as(&route("lib", &["Hidden"]))),
        other => panic!("unexpected {:?}", other),
    }
    // walking through an internal definition from outside its module is denied
    match t.lookup_canonical_route(&route("lib", &["Hidden", "x"]), &route("app", &[])) {
        LookUpCanonicalRouteResult::VisibilityDenial => {},
        other => panic!("unexpected {:?}", other),
    }
    // from inside the module the walk goes on, and finds no module there
    match t.lookup_canonical_route(&route("lib", &["Hidden", "x"]), &route("lib", &[])) {
        LookUpCanonicalRouteResult::NameNotFound => {},
        other => panic!("unexpected {:?}", other),
    }
    match t.lookup_canonical_route(&route("lib", &["Nothing"]), &route("app", &[])) {
        LookUpCanonicalRouteResult::NameNotFound => {},
        other => panic!("unexpected {:?}", other),
    }
}

fn renamed_use(path: &[&str], last: &str, name: &str) -> ParsedBox<DefinitionStmt> {
    let routed = RoutedIdentifier { route: path.iter().map(|p| ident(p)).collect(), this_id: ident(last) };
    pb(DefinitionStmt::Use(pb(Use { is_export: false, name: Some(ident(name)), routed_name: pb(routed) })))
}

/// The tables of `lib` (as in `two_cells`) and of `app`, which depends on
/// it under the name `lib` and holds `app_stmts`.
fn cells_with(app_stmts: Vec<ParsedBox<DefinitionStmt>>) -> GrandModuleSkeletonTable {
    let mut gmmt = GrandModuleMergeTable::new_empty();
    let mut lib_table = MergedModuleTable::new();
    lib_table.merge_program(cell("lib"), Program { stmts: DefinitionStmts(vec![shape("Point", true), shape("Hidden", false)]) });
    gmmt.cell_module_merge_tables.insert(cell("lib"), lib_table);
    let mut app_table = MergedModuleTable::new();
    app_table.merge_program(cell("app"), Program { stmts: DefinitionStmts(app_stmts) });
    gmmt.cell_module_merge_tables.insert(cell("app"), app_table);

    let mut graph = DependencyGraph::new();
    for n in ["lib", "app"] {
        graph.nodes.insert(cell(n));
        let empty: KeyedSet<CellSignature> = KeyedSet::new();
        graph.nexts.insert(cell(n), empty);
    }
    graph.starts.push(cell("lib"));
    graph.connect(cell("lib"), cell("app")).unwrap();

    let mut aliases: KeyedMap<CellSignature, KeyedMap<CellSignature, String>> = KeyedMap::new();
    let mut app_aliases: KeyedMap<CellSignature, String> = KeyedMap::new();
    app_aliases.insert(cell("lib"), "lib".to_string());
    aliases.insert(cell("app"), app_aliases);
    GrandModuleSkeletonTable::new(aliases, &graph, &gmmt)
}

#[test]
fn aliases_naming_each_other_are_circular() {
    let t = cells_with(vec![renamed_use(&["cell"], "B", "A"), renamed_use(&["cell"], "A", "B")]);
    assert!(t.lookup_def_signature(&route("app", &["A"])).is_none());
    assert!(t.lookup_def_signature(&route("app", &["B"])).is_none());
    assert_eq!(t.errors.len(), 2);
    let mut seen_a = false;
    let mut seen_b = false;
    for e in t.errors.iter() {
        assert!(matches!(e.kind, GlobalNameAliasResolutionErrorKind::CircularAlias));
        assert!(e.parent_module_route.same_as(&route("app", &[])));
        match &e.route {
            Ok(r) if r.same_as(&route("app", &["A"])) => seen_a = true,
            Ok(r) if r.same_as(&route("app", &["B"])) => seen_b = true,
            other => panic!("unexpected route {:?}", other),
        }
    }
    assert!(seen_a && seen_b);
}

#[test]
fn alias_of_a_missing_name_is_not_found() {
    let t = cells_with(vec![use_stmt(&["lib"], "Nothing")]);
    assert!(t.lookup_def_signature(&route("app", &["Nothing"])).is_none());
    assert_eq!(t.errors.len(), 1);
    assert!(matches!(t.errors[0].kind, GlobalNameAliasResolutionErrorKind::AliasNameNotFound));
    match &t.errors[0].route {
        Ok(r) => assert!(r.same_as(&route("app", &["Nothing"]))),
        other => panic!("unexpected route {:?}", other),
    }
}
