use cync::cell::CellSignature;
use cync::route::Route;
use cync::route_root_table::RouteRootTable;
use cync::dependency_graph::DependencyGraph;
use cync::keyed::{KeyedMap, KeyedSet};

fn cell(name: &str) -> CellSignature {
    CellSignature::new(name.to_string())
}

fn route(root: &str, path: &[&str]) -> Route {
    Route::new_from_vec_str(cell(root), path.iter().map(|s| s.to_string()).collect())
}

#[test]
fn route_text_of_cell_root_and_path() {
    assert_eq!(Route::new(cell("core")).to_text(), "[core]");
    assert_eq!(route("core", &["a", "b", "c"]).to_text(), "[core] a::b::c");
}

#[test]
fn route_prefix_relation() {
    let a = route("core", &["a"]);
    let abc = route("core", &["a", "b", "c"]);
    assert!(Route::is_prefix(&a, &abc));
    assert!(Route::is_prefix(&abc, &abc));
    assert!(!Route::is_prefix(&abc, &a));
    assert!(!Route::is_prefix(&route("other", &["a"]), &abc));
    assert!(Route::is_ancestor(&a, &abc));
}

#[test]
fn route_parent_and_last_name() {
    let abc = route("core", &["a", "b", "c"]);
    let parent = abc.get_parent_route().unwrap();
    assert!(parent.same_as(&route("core", &["a", "b"])));
    assert_eq!(abc.get_last_name(), "c");
    assert_eq!(Route::new(cell("core")).get_last_name(), "core");
    assert!(Route::new(cell("core")).get_parent_route().is_none());
}

#[test]
fn route_chain_and_prefix() {
    let a = route("core", &["a"]);
    let ab = Route::chain_one(a.duplicate(), "b".to_string());
    assert!(ab.same_as(&route("core", &["a", "b"])));
    let abcd = Route::chain(ab.duplicate(), vec!["c".to_string(), "d".to_string()]);
    assert_eq!(abcd.to_text(), "[core] a::b::c::d");
    assert!(abcd.get_route_prefix(1).same_as(&a));
    assert!(abcd.get_cell_signature_root_route().same_as(&Route::new(cell("core"))));
}

#[test]
fn route_root_table_lookup_after_insert() {
    let mut rrt = RouteRootTable::new();
    assert!(!rrt.contains(&"x".to_string()));
    rrt.insert_relative_defined("x".to_string(), route("core", &["m", "x"]));
    assert!(rrt.contains(&"x".to_string()));
    assert!(rrt.is_relative_root(&"x".to_string()));
    let got = rrt.get_root_route(&"x".to_string()).unwrap();
    assert!(got.same_as(&route("core", &["m", "x"])));
    assert!(rrt.get_root_route(&"y".to_string()).is_none());
    // a later record of the same name replaces the earlier one
    rrt.insert_relative_defined("x".to_string(), route("core", &["n"]));
    assert!(rrt.get_root_route(&"x".to_string()).unwrap().same_as(&route("core", &["n"])));
}

#[test]
fn dependency_graph_connect_refuses_unknown_cells() {
    let mut g = DependencyGraph::new();
    g.nodes.insert(cell("a"));
    match g.connect(cell("a"), cell("b")) {
        Err(c) => assert_eq!(c.name, "b"),
        Ok(()) => panic!("connect accepted an unknown cell"),
    }
    match g.connect(cell("z"), cell("a")) {
        Err(c) => assert_eq!(c.name, "z"),
        Ok(()) => panic!("connect accepted an unknown cell"),
    }
    g.nodes.insert(cell("b"));
    assert!(g.connect(cell("a"), cell("b")).is_ok());
    assert!(g.nexts.get(&cell("a")).unwrap().contains(&cell("b")));
    assert!(g.lasts.get(&cell("b")).unwrap().contains(&cell("a")));
}

#[test]
fn dependency_walk_is_breadth_first() {
    let mut g = DependencyGraph::new();
    for n in ["a", "b", "c", "d"] {
        g.nodes.insert(cell(n));
        let empty: KeyedSet<CellSignature> = KeyedSet::new();
        g.nexts.insert(cell(n), empty);
    }
    g.starts.push(cell("a"));
    g.connect(cell("a"), cell("b")).unwrap();
    g.connect(cell("a"), cell("c")).unwrap();
    g.connect(cell("b"), cell("d")).unwrap();
    let mut it = g.post_order_iter();
    let mut order = Vec::new();
    while let Some(c) = it.next() {
        order.push(c.name);
    }
    assert_eq!(order, vec!["a", "b", "c", "d"]);
}

#[test]
fn relative_path_extends_the_named_route() {
    let mut names: KeyedMap<String, Route> = KeyedMap::new();
    names.insert("m".to_string(), route("core", &["x", "m"]));
    let r = Route::new_from_relative_path(&names, vec!["m".to_string(), "k".to_string()]).unwrap();
    assert_eq!(r.to_text(), "[core] x::m::k");
    assert!(Route::new_from_relative_path(&names, vec!["q".to_string()]).is_none());
}
