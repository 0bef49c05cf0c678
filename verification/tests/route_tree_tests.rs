use cync::cell::CellSignature;
use cync::route::Route;
use cync::route_tree::RouteTree;
use cync::text_order::{path_before, route_before, text_before};

fn route(root: &str, path: &[&str]) -> Route {
    Route::new_from_vec_str(
        CellSignature::new(root.to_string()),
        path.iter().map(|s| s.to_string()).collect(),
    )
}

fn walk(tree: RouteTree) -> Vec<String> {
    let mut it = tree.into_post_order_iter();
    let mut out = Vec::new();
    while let Some(r) = it.next() {
        out.push(r.to_text());
    }
    out
}

#[test]
fn post_order_visits_children_by_name_then_node_routes() {
    let routes = vec![
        route("m", &["a", "x"]),
        route("m", &["a", "b", "y"]),
        route("m", &["b"]),
        route("m", &["a"]),
        route("m", &["a", "b", "z"]),
        route("m", &["c", "d"]),
    ];
    let tree = RouteTree::from_routes(routes);
    assert_eq!(
        walk(tree),
        vec!["[m] a::b::y", "[m] a::b::z", "[m] a::x", "[m] c::d", "[m] a", "[m] b"]
    );
}

#[test]
fn insertion_keeps_each_route_once_and_ignores_empty_paths() {
    let mut tree = RouteTree::new();
    tree = RouteTree::insertion(tree, route("m", &["a", "x"]));
    tree = RouteTree::insertion(tree, route("m", &["a", "x"]));
    tree = RouteTree::insertion(tree, route("m", &[]));
    assert_eq!(tree.routes.len(), 0);
    assert_eq!(tree.children.len(), 1);
    assert_eq!(tree.children[0].0, "a");
    assert_eq!(tree.children[0].1.routes.len(), 1);
    assert_eq!(walk(tree), vec!["[m] a::x"]);
}

#[test]
fn routes_of_one_node_come_in_root_then_path_order() {
    let tree = RouteTree::from_routes(vec![
        route("m", &["b"]),
        route("l", &["c"]),
        route("m", &["a"]),
    ]);
    assert_eq!(walk(tree), vec!["[l] c", "[m] a", "[m] b"]);
}

#[test]
fn names_compare_by_their_bytes() {
    let s = |x: &str| x.to_string();
    assert!(text_before(&s("B"), &s("a")));
    assert!(text_before(&s("ab"), &s("abc")));
    assert!(!text_before(&s("abc"), &s("abc")));
    assert!(text_before(&s("z"), &s("é")));
    assert!(path_before(&vec![s("a")], &vec![s("a"), s("b")]));
    assert!(!path_before(&vec![s("b")], &vec![s("a"), s("b")]));
    assert!(route_before(&route("a", &["z"]), &route("b", &["a"])));
    assert!(!route_before(&route("b", &["a"]), &route("a", &["z"])));
}

#[test]
fn walk_does_not_depend_on_insertion_order() {
    let one = RouteTree::from_routes(vec![
        route("m", &["b", "y"]),
        route("m", &["a"]),
        route("m", &["b", "x"]),
        route("m", &["a"]),
    ]);
    let other = RouteTree::from_routes(vec![route("m", &["a"]), route("m", &["b", "x"]), route("m", &["b", "y"])]);
    assert_eq!(walk(one), walk(other));
}
