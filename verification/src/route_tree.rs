use vstd::prelude::*;
use crate::route::{Route, RouteView};
use crate::text_order::{
    lemma_route_irreflexive, lemma_route_total, lemma_route_transitive, lemma_text_irreflexive, lemma_text_total, lemma_text_transitive, route_before,
    route_below, text_before, text_below,
};

verus! {

/// Routes gathered by the names along their paths: a node holds the routes
/// that end one name below it, and one child per further name.
#[derive(Debug)]
pub struct RouteTree {
    /// The routes of this node, in route order, each once.
    pub routes: Vec<Route>,
    /// The children of this node by name, in name order, each name once.
    pub children: Vec<(String, RouteTree)>,
}

/// The routes of a tree in post order: those of each child, children in
/// name order, then those of the node itself in route order.
pub open spec fn post_order(t: RouteTree) -> Seq<RouteView>
    decreases t,
{
    children_post_order(t.children@) + route_views(t.routes@)
}

/// The abstract values of a sequence of routes.
pub open spec fn route_views(rs: Seq<Route>) -> Seq<RouteView> {
    rs.map_values(|r: Route| r@)
}

/// The post orders of a sequence of children, one after the other.
pub open spec fn children_post_order(s: Seq<(String, RouteTree)>) -> Seq<RouteView>
    decreases s,
{
    if s.len() == 0 {
        Seq::empty()
    } else {
        children_post_order(s.drop_last()) + post_order(s.last().1)
    }
}

/// Routes in strictly increasing route order.
pub open spec fn routes_sorted(rs: Seq<Route>) -> bool {
    forall|i: int, j: int| 0 <= i < j < rs.len() ==> route_below(#[trigger] rs[i]@, #[trigger] rs[j]@)
}

/// Child names in strictly increasing string order.
pub open spec fn keys_sorted(cs: Seq<(String, RouteTree)>) -> bool {
    forall|i: int, j: int| 0 <= i < j < cs.len() ==> text_below(#[trigger] cs[i].0@, #[trigger] cs[j].0@)
}

/// `t` is a well-formed node reached by the names `prefix`: its routes are
/// sorted and end one name below `prefix`, its children are sorted by name and
/// each is well formed under its own name.
pub open spec fn wf_at(t: RouteTree, prefix: Seq<Seq<char>>) -> bool
    decreases t,
{
    &&& routes_sorted(t.routes@)
    &&& forall|i: int| 0 <= i < t.routes@.len() ==> #[trigger] t.routes@[i]@.path.len() == prefix.len() + 1
        && t.routes@[i]@.path.drop_last() == prefix
    &&& keys_sorted(t.children@)
    &&& children_wf(t.children@, prefix)
}

/// Every child in `s` is well formed under `prefix` and its own name.
pub open spec fn children_wf(s: Seq<(String, RouteTree)>, prefix: Seq<Seq<char>>) -> bool
    decreases s,
{
    if s.len() == 0 {
        true
    } else {
        children_wf(s.drop_last(), prefix) && wf_at(s.last().1, prefix.push(s.last().0@))
    }
}

impl RouteTree {
    /// A well-formed tree whose root is reached by no name.
    pub open spec fn wf(self) -> bool {
        wf_at(self, Seq::empty())
    }
}

/// The post order of a concatenation of children is the concatenation of
/// their post orders.
proof fn lemma_children_post_order_concat(a: Seq<(String, RouteTree)>, b: Seq<(String, RouteTree)>)
    ensures
        children_post_order(a + b) == children_post_order(a) + children_post_order(b),
    decreases b.len(),
{
    if b.len() == 0 {
        assert(a + b =~= a);
        assert(children_post_order(b) =~= Seq::<RouteView>::empty());
        assert(children_post_order(a) + children_post_order(b) =~= children_post_order(a));
    } else {
        lemma_children_post_order_concat(a, b.drop_last());
        assert((a + b).drop_last() =~= a + b.drop_last());
        assert((a + b).last() == b.last());
        assert(children_post_order(a + b) =~= children_post_order(a) + children_post_order(b));
    }
}

/// Children well formed piece by piece are well formed together, and back.
proof fn lemma_children_wf_concat(a: Seq<(String, RouteTree)>, b: Seq<(String, RouteTree)>, prefix: Seq<Seq<char>>)
    ensures
        children_wf(a + b, prefix) == (children_wf(a, prefix) && children_wf(b, prefix)),
    decreases b.len(),
{
    if b.len() == 0 {
        assert(a + b =~= a);
    } else {
        lemma_children_wf_concat(a, b.drop_last(), prefix);
        assert((a + b).drop_last() =~= a + b.drop_last());
        assert((a + b).last() == b.last());
    }
}

/// The children of a sequence split around position `i`.
proof fn lemma_split_at(s: Seq<(String, RouteTree)>, i: int)
    requires
        0 <= i < s.len(),
    ensures
        s == s.take(i) + seq![s[i]] + s.skip(i + 1),
        children_post_order(s) == children_post_order(s.take(i)) + post_order(s[i].1)
            + children_post_order(s.skip(i + 1)),
{
    assert(s =~= s.take(i) + seq![s[i]] + s.skip(i + 1));
    lemma_children_post_order_concat(s.take(i) + seq![s[i]], s.skip(i + 1));
    lemma_children_post_order_concat(s.take(i), seq![s[i]]);
    assert(seq![s[i]].drop_last() =~= Seq::<(String, RouteTree)>::empty());
    assert(seq![s[i]].last() == s[i]);
    assert(children_post_order(Seq::<(String, RouteTree)>::empty()) =~= Seq::<RouteView>::empty());
    assert(children_post_order(seq![s[i]]) =~= post_order(s[i].1));
}

/// Membership in a concatenation.
proof fn lemma_contains_concat(a: Seq<RouteView>, b: Seq<RouteView>, x: RouteView)
    ensures
        (a + b).contains(x) == (a.contains(x) || b.contains(x)),
{
    if a.contains(x) {
        let i = choose|i: int| 0 <= i < a.len() && a[i] == x;
        assert((a + b)[i] == x);
    }
    if b.contains(x) {
        let i = choose|i: int| 0 <= i < b.len() && b[i] == x;
        assert((a + b)[a.len() + i] == x);
    }
    if (a + b).contains(x) {
        let i = choose|i: int| 0 <= i < (a + b).len() && (a + b)[i] == x;
        if i < a.len() {
            assert(a[i] == x);
        } else {
            assert(b[i - a.len()] == x);
        }
    }
}

/// The child at position `i` of well-formed children is well formed under
/// its name.
proof fn lemma_children_wf_index(s: Seq<(String, RouteTree)>, prefix: Seq<Seq<char>>, i: int)
    requires
        children_wf(s, prefix),
        0 <= i < s.len(),
    ensures
        wf_at(s[i].1, prefix.push(s[i].0@)),
    decreases s.len(),
{
    if i < s.len() - 1 {
        lemma_children_wf_index(s.drop_last(), prefix, i);
    }
}

/// A single child is well formed exactly when its tree is.
proof fn lemma_children_wf_single(c: (String, RouteTree), prefix: Seq<Seq<char>>)
    ensures
        children_wf(seq![c], prefix) == wf_at(c.1, prefix.push(c.0@)),
{
    assert(seq![c].drop_last() =~= Seq::<(String, RouteTree)>::empty());
    assert(seq![c].last() == c);
    assert(children_wf(Seq::<(String, RouteTree)>::empty(), prefix));
    assert(children_wf(seq![c], prefix) == (children_wf(seq![c].drop_last(), prefix) && wf_at(c.1, prefix.push(c.0@))));
}

/// Well-formed children with one of them replaced by a well-formed child.
proof fn lemma_children_wf_replace(
    s: Seq<(String, RouteTree)>,
    prefix: Seq<Seq<char>>,
    i: int,
    c: (String, RouteTree),
)
    requires
        children_wf(s, prefix),
        0 <= i <= s.len(),
        wf_at(c.1, prefix.push(c.0@)),
    ensures
        children_wf(s.take(i) + seq![c] + s.skip(i), prefix),
        i < s.len() ==> children_wf(s.take(i) + seq![c] + s.skip(i + 1), prefix),
{
    assert(s =~= s.take(i) + s.skip(i));
    lemma_children_wf_concat(s.take(i), s.skip(i), prefix);
    lemma_children_wf_single(c, prefix);
    lemma_children_wf_concat(s.take(i), seq![c], prefix);
    lemma_children_wf_concat(s.take(i) + seq![c], s.skip(i), prefix);
    if i < s.len() {
        assert(s.skip(i) =~= seq![s[i]] + s.skip(i + 1));
        lemma_children_wf_concat(seq![s[i]], s.skip(i + 1), prefix);
        lemma_children_wf_concat(s.take(i) + seq![c], s.skip(i + 1), prefix);
    }
}

/// Insert `r` into routes sorted in route order, unless it is there already.
fn insert_sorted_route(routes: &mut Vec<Route>, r: Route)
    requires
        routes_sorted(old(routes)@),
    ensures
        routes_sorted(final(routes)@),
        forall|x: RouteView| #[trigger] route_views(final(routes)@).contains(x)
            == (route_views(old(routes)@).contains(x) || x == r@),
{
    let mut i: usize = 0;
    while i < routes.len() && route_before(&routes[i], &r)
        invariant
            0 <= i <= routes.len(),
            forall|k: int| 0 <= k < i ==> route_below(#[trigger] routes@[k]@, r@),
        decreases routes.len() - i,
    {
        i = i + 1;
    }
    let ghost old_routes = routes@;
    assert(route_views(old_routes).len() == old_routes.len());
    if i < routes.len() && routes[i].same_as(&r) {
        assert forall|x: RouteView| #[trigger] route_views(old_routes).contains(x)
            == (route_views(old_routes).contains(x) || x == r@) by {
            if x == r@ {
                assert(route_views(old_routes)[i as int] == x);
            }
        }
        return;
    }
    if i < routes.len() {
        proof {
            lemma_route_total(routes@[i as int]@, r@);
        }
    }
    routes.insert(i, r);
    proof {
        let n = routes@;
        assert(n == old_routes.insert(i as int, r));
        assert forall|a: int, b: int| 0 <= a < b < n.len() implies route_below(#[trigger] n[a]@, #[trigger] n[b]@) by {
            if b < i {
            } else if b == i {
            } else if a == i {
                if b - 1 > i {
                    lemma_route_transitive(r@, old_routes[i as int]@, old_routes[b - 1]@);
                }
            } else if a < i {
            } else {
            }
        }
        assert(route_views(n) =~= route_views(old_routes).insert(i as int, r@));
        assert forall|x: RouteView| #[trigger] route_views(n).contains(x)
            == (route_views(old_routes).contains(x) || x == r@) by {
            let o = route_views(old_routes);
            if route_views(n).contains(x) {
                let k = choose|k: int| 0 <= k < route_views(n).len() && route_views(n)[k] == x;
                if k < i {
                    assert(o[k] == x);
                } else if k > i {
                    assert(o[k - 1] == x);
                }
            }
            if o.contains(x) {
                let k = choose|k: int| 0 <= k < o.len() && o[k] == x;
                if k < i {
                    assert(route_views(n)[k] == x);
                } else {
                    assert(route_views(n)[k + 1] == x);
                }
            }
            if x == r@ {
                assert(route_views(n)[i as int] == x);
            }
        }
    }
}

/// Where `key` stands among children sorted by name: whether a child has
/// that name, and the position of the first child whose name is not below it.
fn find_child(children: &Vec<(String, RouteTree)>, key: &String) -> (res: (bool, usize))
    requires
        keys_sorted(children@),
    ensures
        res.1 <= children@.len(),
        forall|k: int| 0 <= k < res.1 ==> text_below(#[trigger] children@[k].0@, key@),
        res.0 == (res.1 < children@.len() && children@[res.1 as int].0@ == key@),
        !res.0 && res.1 < children@.len() ==> text_below(key@, children@[res.1 as int].0@),
{
    let mut i: usize = 0;
    while i < children.len() && text_before(&children[i].0, key)
        invariant
            0 <= i <= children@.len(),
            forall|k: int| 0 <= k < i ==> text_below(#[trigger] children@[k].0@, key@),
        decreases children.len() - i,
    {
        i = i + 1;
    }
    if i < children.len() {
        let found = children[i].0 == *key;
        if !found {
            proof {
                lemma_text_total(children@[i as int].0@, key@);
            }
        }
        (found, i)
    } else {
        (false, i)
    }
}

impl RouteTree {
    /// A tree with no routes and no children.
    pub fn new() -> (res: RouteTree)
        ensures
            res.routes@.len() == 0,
            res.children@.len() == 0,
            res.wf(),
            post_order(res) == Seq::<RouteView>::empty(),
    {
        let t = RouteTree { routes: Vec::new(), children: Vec::new() };
        proof {
            assert(children_post_order(t.children@) =~= Seq::<RouteView>::empty());
            assert(post_order(t) =~= Seq::<RouteView>::empty());
        }
        t
    }

    /// Add `route` to the node reached from this one by its names from
    /// position `depth` on, all but the last.
    fn insert_below(&mut self, route: Route, depth: usize)
        requires
            wf_at(*old(self), route@.path.take(depth as int)),
            depth < route@.path.len(),
        ensures
            wf_at(*final(self), route@.path.take(depth as int)),
            forall|x: RouteView| #[trigger] post_order(*final(self)).contains(x)
                == (post_order(*old(self)).contains(x) || x == route@),
        decreases route@.path.len() - depth,
    {
        let ghost prefix = route@.path.take(depth as int);
        let ghost rv = route@;
        assert(route.path.deep_view().len() == route.path@.len());
        if depth == route.path.len() - 1 {
            let ghost old_routes = self.routes@;
            insert_sorted_route(&mut self.routes, route);
            proof {
                assert(rv.path.drop_last() =~= prefix);
                let n = self.routes@;
                assert forall|i: int| 0 <= i < n.len() implies #[trigger] n[i]@.path.len() == prefix.len() + 1
                    && n[i]@.path.drop_last() == prefix by {
                    assert(route_views(n)[i] == n[i]@);
                    assert(route_views(n).contains(n[i]@));
                    if n[i]@ != rv {
                        let k = choose|k: int| 0 <= k < route_views(old_routes).len()
                            && route_views(old_routes)[k] == n[i]@;
                        assert(old_routes[k]@ == n[i]@);
                    }
                }
                assert forall|x: RouteView| #[trigger] post_order(*self).contains(x)
                    == (post_order(*old(self)).contains(x) || x == rv) by {
                    lemma_contains_concat(children_post_order(self.children@), route_views(n), x);
                    lemma_contains_concat(children_post_order(self.children@), route_views(old_routes), x);
                }
            }
        } else {
            let key = route.path[depth].clone();
            proof {
                assert(route@.path.take(depth + 1) =~= prefix.push(key@));
            }
            let ghost old_children = self.children@;
            let (found, i) = find_child(&self.children, &key);
            if found {
                proof {
                    lemma_children_wf_index(old_children, prefix, i as int);
                    lemma_split_at(old_children, i as int);
                }
                let (k, mut child) = self.children.remove(i);
                let ghost old_child = child;
                child.insert_below(route, depth + 1);
                self.children.insert(i, (k, child));
                proof {
                    let n = self.children@;
                    let c = (k, child);
                    assert(n =~= old_children.take(i as int) + seq![c] + old_children.skip(i + 1));
                    lemma_children_wf_replace(old_children, prefix, i as int, c);
                    assert(n[i as int] == c);
                    lemma_split_at(n, i as int);
                    assert(n.take(i as int) =~= old_children.take(i as int));
                    assert(n.skip(i + 1) =~= old_children.skip(i + 1));
                    assert forall|a: int, b: int| 0 <= a < b < n.len() implies text_below(#[trigger] n[a].0@, #[trigger] n[b].0@) by {
                        assert(n[a].0@ == old_children[a].0@);
                        assert(n[b].0@ == old_children[b].0@);
                    }
                    let cpo_a = children_post_order(n.take(i as int));
                    let cpo_b = children_post_order(n.skip(i + 1));
                    assert forall|x: RouteView| #[trigger] post_order(*self).contains(x)
                        == (post_order(*old(self)).contains(x) || x == rv) by {
                        lemma_contains_concat(children_post_order(n), route_views(self.routes@), x);
                        lemma_contains_concat(children_post_order(old_children), route_views(self.routes@), x);
                        lemma_contains_concat(cpo_a + post_order(child), cpo_b, x);
                        lemma_contains_concat(cpo_a, post_order(child), x);
                        lemma_contains_concat(cpo_a + post_order(old_child), cpo_b, x);
                        lemma_contains_concat(cpo_a, post_order(old_child), x);
                    }
                }
            } else {
                let mut child = RouteTree::new();
                child.insert_below(route, depth + 1);
                self.children.insert(i, (key, child));
                proof {
                    let n = self.children@;
                    let c = (key, child);
                    assert(n =~= old_children.take(i as int) + seq![c] + old_children.skip(i as int));
                    lemma_children_wf_replace(old_children, prefix, i as int, c);
                    assert(n[i as int] == c);
                    lemma_split_at(n, i as int);
                    assert(n.take(i as int) =~= old_children.take(i as int));
                    assert(n.skip(i + 1) =~= old_children.skip(i as int));
                    assert(old_children =~= old_children.take(i as int) + old_children.skip(i as int));
                    lemma_children_post_order_concat(old_children.take(i as int), old_children.skip(i as int));
                    assert forall|a: int, b: int| 0 <= a < b < n.len() implies text_below(#[trigger] n[a].0@, #[trigger] n[b].0@) by {
                        if a < i && b > i {
                            assert(n[b].0@ == old_children[b - 1].0@);
                        } else if a == i && b > i + 1 {
                            lemma_text_transitive(key@, old_children[i as int].0@, old_children[b - 1].0@);
                        } else if a > i {
                            assert(n[a].0@ == old_children[a - 1].0@);
                            assert(n[b].0@ == old_children[b - 1].0@);
                        }
                    }
                    let cpo_a = children_post_order(n.take(i as int));
                    let cpo_b = children_post_order(n.skip(i + 1));
                    assert forall|x: RouteView| #[trigger] post_order(*self).contains(x)
                        == (post_order(*old(self)).contains(x) || x == rv) by {
                        lemma_contains_concat(children_post_order(n), route_views(self.routes@), x);
                        lemma_contains_concat(children_post_order(old_children), route_views(self.routes@), x);
                        lemma_contains_concat(cpo_a + post_order(child), cpo_b, x);
                        lemma_contains_concat(cpo_a, post_order(child), x);
                        lemma_contains_concat(cpo_a, cpo_b, x);
                    }
                }
            }
        }
    }

    /// Append the routes of this tree to `out`, in post order.
    fn collect_post_order(&self, out: &mut Vec<Route>)
        ensures
            route_views(final(out)@) == route_views(old(out)@) + post_order(*self),
        decreases self,
    {
        let ghost start = route_views(out@);
        let mut i: usize = 0;
        proof {
            assert(self.children@.take(0) =~= Seq::<(String, RouteTree)>::empty());
            assert(route_views(out@) =~= start + children_post_order(self.children@.take(0)));
        }
        while i < self.children.len()
            invariant
                0 <= i <= self.children@.len(),
                route_views(out@) == start + children_post_order(self.children@.take(i as int)),
            decreases self.children.len() - i,
        {
            self.children[i].1.collect_post_order(out);
            proof {
                let t = self.children@.take(i + 1);
                assert(t.drop_last() =~= self.children@.take(i as int));
                assert(t.last() == self.children@[i as int]);
                assert(route_views(out@) =~= start + children_post_order(t));
            }
            i = i + 1;
        }
        let ghost mid = route_views(out@);
        assert(self.children@.take(i as int) =~= self.children@);
        let mut j: usize = 0;
        assert(mid + route_views(self.routes@.take(0)) =~= mid);
        while j < self.routes.len()
            invariant
                0 <= j <= self.routes@.len(),
                route_views(out@) == mid + route_views(self.routes@.take(j as int)),
            decreases self.routes.len() - j,
        {
            let ghost prev = out@;
            out.push(self.routes[j].duplicate());
            assert(route_views(out@) =~= route_views(prev).push(self.routes@[j as int]@));
            assert(route_views(self.routes@.take(j + 1)) =~= route_views(self.routes@.take(j as int)).push(self.routes@[j as int]@));
            assert(route_views(out@) =~= mid + route_views(self.routes@.take(j + 1)));
            j = j + 1;
        }
        assert(self.routes@.take(j as int) =~= self.routes@);
        assert(route_views(out@) =~= route_views(old(out)@) + post_order(*self));
    }

    /// A walk over the routes of this tree in post order.
    pub fn into_post_order_iter(self) -> (res: RouteTreeIterator)
        ensures
            res.pending() == post_order(self),
    {
        let mut routes: Vec<Route> = Vec::new();
        self.collect_post_order(&mut routes);
        let res = RouteTreeIterator { routes, index: 0 };
        proof {
            assert(route_views(routes@).skip(0) =~= route_views(routes@));
            assert(route_views(Seq::<Route>::empty()) =~= Seq::<RouteView>::empty());
            assert(Seq::<RouteView>::empty() + post_order(self) =~= post_order(self));
        }
        res
    }

    /// The tree of the given routes, added one after the other.
    pub fn from_routes(routes: Vec<Route>) -> (res: RouteTree)
        ensures
            res.wf(),
            forall|x: RouteView| #[trigger] post_order(res).contains(x) == exists|k: int|
                0 <= k < routes@.len() && #[trigger] routes@[k]@ == x && x.path.len() > 0,
    {
        let mut tree = RouteTree::new();
        let mut i: usize = 0;
        while i < routes.len()
            invariant
                0 <= i <= routes@.len(),
                tree.wf(),
                forall|x: RouteView| #[trigger] post_order(tree).contains(x) == exists|k: int|
                    0 <= k < i && #[trigger] routes@[k]@ == x && x.path.len() > 0,
            decreases routes.len() - i,
        {
            let ghost before = tree;
            let r = routes[i].duplicate();
            tree = RouteTree::insertion(tree, r);
            proof {
                assert forall|x: RouteView| #[trigger] post_order(tree).contains(x) == exists|k: int|
                    0 <= k < i + 1 && #[trigger] routes@[k]@ == x && x.path.len() > 0 by {
                    if x == routes@[i as int]@ && x.path.len() > 0 {
                        assert(routes@[i as int]@ == x);
                    }
                    if exists|k: int| 0 <= k < i + 1 && #[trigger] routes@[k]@ == x && x.path.len() > 0 {
                        let k = choose|k: int| 0 <= k < i + 1 && #[trigger] routes@[k]@ == x && x.path.len() > 0;
                        if k < i {
                            assert(post_order(before).contains(x));
                        }
                    }
                }
            }
            i = i + 1;
        }
        tree
    }

    /// `current_tree` with `route` added under the names of its path. A route
    /// with an empty path leaves the tree as it is.
    pub fn insertion(current_tree: Self, route: Route) -> (res: Self)
        requires
            current_tree.wf(),
        ensures
            res.wf(),
            route@.path.len() == 0 ==> res == current_tree,
            route@.path.len() > 0 ==> forall|x: RouteView| #[trigger] post_order(res).contains(x)
                == (post_order(current_tree).contains(x) || x == route@),
    {
        let mut new_tree = current_tree;
        if route.path.len() > 0 {
            proof {
                assert(route@.path.take(0) =~= Seq::<Seq<char>>::empty());
            }
            new_tree.insert_below(route, 0);
        }
        new_tree
    }
}

/// The routes of node `a` come before those of node `b` in post order:
/// either `a` lies below `b`, or at the first name where they part, `a`'s
/// name is the smaller.
pub open spec fn node_first(a: Seq<Seq<char>>, b: Seq<Seq<char>>) -> bool
    decreases a.len(),
{
    if a.len() == 0 {
        false
    } else if b.len() == 0 {
        true
    } else if a[0] != b[0] {
        text_below(a[0], b[0])
    } else {
        node_first(a.drop_first(), b.drop_first())
    }
}

/// The order in which a post-order walk meets routes: by the node that holds
/// them, and within one node in route order.
pub open spec fn post_order_below(r: RouteView, s: RouteView) -> bool {
    if r.path.drop_last() == s.path.drop_last() {
        route_below(r, s)
    } else {
        node_first(r.path.drop_last(), s.path.drop_last())
    }
}

/// Routes in strictly increasing post-order position.
pub open spec fn post_order_sorted(s: Seq<RouteView>) -> bool {
    forall|i: int, j: int| 0 <= i < j < s.len() ==> post_order_below(#[trigger] s[i], #[trigger] s[j])
}

/// Route `x` lies in the subtree reached by the names `prefix`.
pub open spec fn lies_under(x: RouteView, prefix: Seq<Seq<char>>) -> bool {
    x.path.len() > prefix.len() && x.path.take(prefix.len() as int) == prefix
}

/// A node strictly below another comes first.
proof fn lemma_node_first_deeper(a: Seq<Seq<char>>, b: Seq<Seq<char>>)
    requires
        b.len() < a.len(),
        a.take(b.len() as int) == b,
    ensures
        node_first(a, b),
    decreases b.len(),
{
    if b.len() > 0 {
        assert(a[0] == a.take(b.len() as int)[0]);
        assert(a.drop_first().take(b.len() - 1) =~= b.drop_first());
        lemma_node_first_deeper(a.drop_first(), b.drop_first());
    }
}

/// Of two nodes that part at position `k`, the one with the smaller name there
/// comes first.
proof fn lemma_node_first_at(a: Seq<Seq<char>>, b: Seq<Seq<char>>, k: int)
    requires
        0 <= k < a.len(),
        k < b.len(),
        a.take(k) == b.take(k),
        text_below(a[k], b[k]),
    ensures
        node_first(a, b),
    decreases k,
{
    if k > 0 {
        assert(a[0] == a.take(k)[0]);
        assert(b[0] == b.take(k)[0]);
        assert(a.drop_first().take(k - 1) =~= a.take(k).drop_first());
        assert(b.drop_first().take(k - 1) =~= b.take(k).drop_first());
        lemma_node_first_at(a.drop_first(), b.drop_first(), k - 1);
    } else {
        lemma_text_irreflexive(a[0]);
    }
}

/// Inside a well-formed node reached by `prefix`, the post order is sorted,
/// and every route in it lies under `prefix`.
proof fn lemma_post_order_sorted_at(t: RouteTree, prefix: Seq<Seq<char>>)
    requires
        wf_at(t, prefix),
    ensures
        post_order_sorted(post_order(t)),
        forall|i: int| 0 <= i < post_order(t).len() ==> lies_under(#[trigger] post_order(t)[i], prefix),
    decreases t,
{
    let plen = prefix.len() as int;
    let c = children_post_order(t.children@);
    let r = route_views(t.routes@);
    lemma_children_sorted(t.children@, prefix);
    let s = c + r;
    assert forall|i: int| 0 <= i < r.len() implies #[trigger] r[i].path.drop_last() == prefix
        && lies_under(r[i], prefix) by {
        assert(r[i] == t.routes@[i]@);
        assert(t.routes@[i]@.path.len() == prefix.len() + 1);
        assert(r[i].path.take(plen) =~= r[i].path.drop_last());
    }
    assert forall|i: int, j: int| 0 <= i < j < s.len() implies post_order_below(#[trigger] s[i], #[trigger] s[j]) by {
        if j < c.len() {
            assert(s[i] == c[i] && s[j] == c[j]);
        } else if i >= c.len() {
            assert(s[i] == r[i - c.len()] && s[j] == r[j - c.len()]);
            assert(r[i - c.len()] == t.routes@[i - c.len()]@);
            assert(r[j - c.len()] == t.routes@[j - c.len()]@);
        } else {
            let x = c[i];
            let y = r[j - c.len()];
            assert(s[i] == x && s[j] == y);
            assert(x.path.drop_last().take(plen) =~= x.path.take(plen));
            lemma_node_first_deeper(x.path.drop_last(), prefix);
        }
    }
    assert forall|i: int| 0 <= i < s.len() implies lies_under(#[trigger] s[i], prefix) by {
        if i < c.len() {
            assert(s[i] == c[i]);
        } else {
            assert(s[i] == r[i - c.len()]);
        }
    }
}

/// The post order of well-formed children sorted by name is sorted, and every
/// route in it lies under `prefix` and one of the children's names.
proof fn lemma_children_sorted(s: Seq<(String, RouteTree)>, prefix: Seq<Seq<char>>)
    requires
        children_wf(s, prefix),
        keys_sorted(s),
    ensures
        post_order_sorted(children_post_order(s)),
        forall|i: int| 0 <= i < children_post_order(s).len() ==> {
            let x = #[trigger] children_post_order(s)[i];
            &&& lies_under(x, prefix)
            &&& x.path.len() > prefix.len() + 1
            &&& exists|j: int| 0 <= j < s.len() && x.path[prefix.len() as int] == s[j].0@
        },
    decreases s,
{
    let plen = prefix.len() as int;
    if s.len() > 0 {
        let d = s.drop_last();
        let k = s.last().0;
        lemma_children_sorted(d, prefix);
        lemma_post_order_sorted_at(s.last().1, prefix.push(k@));
        let a = children_post_order(d);
        let b = post_order(s.last().1);
        let all = a + b;
        assert(children_post_order(s) == all);
        assert forall|i: int| 0 <= i < b.len() implies {
            let x = #[trigger] b[i];
            &&& lies_under(x, prefix)
            &&& x.path.len() > prefix.len() + 1
            &&& x.path[plen] == k@
        } by {
            let x = b[i];
            assert(lies_under(x, prefix.push(k@)));
            assert(x.path.take(plen + 1)[plen] == k@);
            assert(x.path.take(plen) =~= x.path.take(plen + 1).drop_last());
            assert(prefix.push(k@).drop_last() =~= prefix);
            assert(x.path.take(plen) == prefix);
        }
        assert forall|i: int, j: int| 0 <= i < j < all.len() implies post_order_below(#[trigger] all[i], #[trigger] all[j]) by {
            if j < a.len() {
                assert(all[i] == a[i] && all[j] == a[j]);
            } else if i >= a.len() {
                assert(all[i] == b[i - a.len()] && all[j] == b[j - a.len()]);
            } else {
                let x = a[i];
                let y = b[j - a.len()];
                assert(all[i] == x && all[j] == y);
                let jj = choose|jj: int| 0 <= jj < d.len() && x.path[plen] == d[jj].0@;
                assert(s[jj] == d[jj]);
                assert(text_below(s[jj].0@, s[s.len() - 1].0@));
                let xn = x.path.drop_last();
                let yn = y.path.drop_last();
                assert(xn.take(plen) =~= x.path.take(plen));
                assert(yn.take(plen) =~= y.path.take(plen));
                assert(xn[plen] == x.path[plen]);
                assert(yn[plen] == y.path[plen]);
                lemma_node_first_at(xn, yn, plen);
                lemma_text_irreflexive(xn[plen]);
                assert(xn != yn);
            }
        }
        assert forall|i: int| 0 <= i < all.len() implies {
            let x = #[trigger] all[i];
            &&& lies_under(x, prefix)
            &&& x.path.len() > prefix.len() + 1
            &&& exists|j: int| 0 <= j < s.len() && x.path[prefix.len() as int] == s[j].0@
        } by {
            if i < a.len() {
                assert(all[i] == a[i]);
                let jj = choose|jj: int| 0 <= jj < d.len() && a[i].path[plen] == d[jj].0@;
                assert(s[jj] == d[jj]);
            } else {
                assert(all[i] == b[i - a.len()]);
                assert(s[s.len() - 1].0 == k);
            }
        }
    }
}

/// A post-order walk of a well-formed tree meets its routes in post-order
/// position: the routes of each child subtree, children in name order, before
/// those of the node itself, these in route order. So it meets no route twice,
/// and every route it meets has a non-empty path.
pub proof fn lemma_post_order_sorted(t: RouteTree)
    requires
        t.wf(),
    ensures
        post_order_sorted(post_order(t)),
        post_order(t).no_duplicates(),
        forall|i: int| 0 <= i < post_order(t).len() ==> (#[trigger] post_order(t)[i]).path.len() > 0,
{
    lemma_post_order_sorted_at(t, Seq::empty());
    let s = post_order(t);
    assert forall|i: int, j: int| 0 <= i < s.len() && 0 <= j < s.len() && i != j implies s[i] != s[j] by {
        if i < j {
            assert(post_order_below(s[i], s[j]));
        } else {
            assert(post_order_below(s[j], s[i]));
        }
        lemma_route_irreflexive(s[i]);
    }
    assert forall|i: int| 0 <= i < s.len() implies (#[trigger] s[i]).path.len() > 0 by {
        assert(lies_under(s[i], Seq::empty()));
    }
}

/// No node comes before itself.
proof fn lemma_node_first_irreflexive(a: Seq<Seq<char>>)
    ensures
        !node_first(a, a),
    decreases a.len(),
{
    if a.len() > 0 {
        lemma_node_first_irreflexive(a.drop_first());
    }
}

/// The node order is transitive.
proof fn lemma_node_first_transitive(a: Seq<Seq<char>>, b: Seq<Seq<char>>, c: Seq<Seq<char>>)
    requires
        node_first(a, b),
        node_first(b, c),
    ensures
        node_first(a, c),
    decreases a.len(),
{
    if a.len() > 0 && b.len() > 0 && c.len() > 0 {
        if a[0] == b[0] && b[0] == c[0] {
            lemma_node_first_transitive(a.drop_first(), b.drop_first(), c.drop_first());
        } else if a[0] != b[0] && b[0] != c[0] {
            lemma_text_transitive(a[0], b[0], c[0]);
            if a[0] == c[0] {
                lemma_text_irreflexive(a[0]);
            }
        }
    }
}

/// Two different nodes are ordered one way or the other.
proof fn lemma_node_first_total(a: Seq<Seq<char>>, b: Seq<Seq<char>>)
    ensures
        a == b || node_first(a, b) || node_first(b, a),
    decreases a.len(),
{
    if a.len() > 0 && b.len() > 0 {
        if a[0] == b[0] {
            lemma_node_first_total(a.drop_first(), b.drop_first());
            if a.drop_first() == b.drop_first() {
                assert(a =~= seq![a[0]] + a.drop_first());
                assert(b =~= seq![b[0]] + b.drop_first());
            }
        } else {
            lemma_text_total(a[0], b[0]);
        }
    } else if a.len() == 0 && b.len() == 0 {
        assert(a =~= b);
    }
}

/// The post order is a strict total order on routes.
proof fn lemma_post_order_below_order(x: RouteView, y: RouteView, z: RouteView)
    ensures
        !post_order_below(x, x),
        post_order_below(x, y) && post_order_below(y, z) ==> post_order_below(x, z),
        x == y || post_order_below(x, y) || post_order_below(y, x),
{
    lemma_route_irreflexive(x);
    lemma_route_total(x, y);
    lemma_node_first_total(x.path.drop_last(), y.path.drop_last());
    let nx = x.path.drop_last();
    let ny = y.path.drop_last();
    let nz = z.path.drop_last();
    if post_order_below(x, y) && post_order_below(y, z) {
        if nx == ny && ny == nz {
            lemma_route_transitive(x, y, z);
        } else if nx != ny && ny != nz {
            lemma_node_first_transitive(nx, ny, nz);
            if nx == nz {
                lemma_node_first_irreflexive(nx);
            }
        }
    }
}

/// Two sequences of routes in strictly increasing post-order position
/// that hold the same routes are the same.
proof fn lemma_sorted_same(s1: Seq<RouteView>, s2: Seq<RouteView>)
    requires
        post_order_sorted(s1),
        post_order_sorted(s2),
        forall|x: RouteView| s1.contains(x) == s2.contains(x),
    ensures
        s1 == s2,
    decreases s1.len(),
{
    if s1.len() == 0 {
        if s2.len() > 0 {
            assert(s2.contains(s2[0]));
        }
        assert(s1 =~= s2);
    } else {
        assert(s1.contains(s1[0]));
        assert(s2.len() > 0);
        let a = s1[0];
        let b = s2[0];
        if a != b {
            assert(s2.contains(a));
            let j = choose|j: int| 0 <= j < s2.len() && s2[j] == a;
            assert(s1.contains(b));
            let i = choose|i: int| 0 <= i < s1.len() && s1[i] == b;
            assert(j > 0 && i > 0);
            assert(post_order_below(b, a));
            assert(post_order_below(a, b));
            lemma_post_order_below_order(a, b, a);
        }
        let t1 = s1.drop_first();
        let t2 = s2.drop_first();
        assert forall|x: RouteView| t1.contains(x) == t2.contains(x) by {
            if t1.contains(x) {
                let i = choose|i: int| 0 <= i < t1.len() && t1[i] == x;
                assert(s1[i + 1] == x);
                lemma_post_order_below_order(a, x, x);
                assert(x != a);
                assert(s2.contains(x));
                let j = choose|j: int| 0 <= j < s2.len() && s2[j] == x;
                assert(j != 0);
                assert(t2[j - 1] == x);
            }
            if t2.contains(x) {
                let j = choose|j: int| 0 <= j < t2.len() && t2[j] == x;
                assert(s2[j + 1] == x);
                lemma_post_order_below_order(b, x, x);
                assert(x != b);
                assert(s1.contains(x));
                let i = choose|i: int| 0 <= i < s1.len() && s1[i] == x;
                assert(i != 0);
                assert(t1[i - 1] == x);
            }
        }
        assert forall|i: int, j: int| 0 <= i < j < t1.len() implies post_order_below(#[trigger] t1[i], #[trigger] t1[j]) by {
            assert(t1[i] == s1[i + 1] && t1[j] == s1[j + 1]);
        }
        assert forall|i: int, j: int| 0 <= i < j < t2.len() implies post_order_below(#[trigger] t2[i], #[trigger] t2[j]) by {
            assert(t2[i] == s2[i + 1] && t2[j] == s2[j + 1]);
        }
        lemma_sorted_same(t1, t2);
        assert(s1 =~= seq![a] + t1);
        assert(s2 =~= seq![b] + t2);
    }
}

/// The walk of a well-formed tree depends only on the routes it holds: two
/// well-formed trees that hold the same routes are walked alike, whatever
/// order their routes were added in.
pub proof fn lemma_post_order_determined(t1: RouteTree, t2: RouteTree)
    requires
        t1.wf(),
        t2.wf(),
        forall|x: RouteView| post_order(t1).contains(x) == post_order(t2).contains(x),
    ensures
        post_order(t1) == post_order(t2),
{
    lemma_post_order_sorted(t1);
    lemma_post_order_sorted(t2);
    lemma_sorted_same(post_order(t1), post_order(t2));
}

/// A walk over the routes of a tree, in post order.
pub struct RouteTreeIterator {
    routes: Vec<Route>,
    index: usize,
}

impl RouteTreeIterator {
    #[verifier::type_invariant]
    closed spec fn inv(&self) -> bool {
        self.index <= self.routes@.len()
    }

    /// The routes still to come, in the order they will come.
    pub closed spec fn pending(&self) -> Seq<RouteView> {
        route_views(self.routes@).skip(self.index as int)
    }

    /// The next route, if any is left.
    pub fn next(&mut self) -> (res: Option<Route>)
        ensures
            old(self).pending().len() == 0 ==> res is None && final(self).pending() == old(self).pending(),
            old(self).pending().len() > 0 ==> res is Some && res.unwrap()@ == old(self).pending()[0]
                && final(self).pending() == old(self).pending().drop_first(),
    {
        proof {
            use_type_invariant(&*self);
        }
        if self.index < self.routes.len() {
            let r = self.routes[self.index].duplicate();
            self.index = self.index + 1;
            proof {
                assert(self.pending() =~= old(self).pending().drop_first());
            }
            Some(r)
        } else {
            None
        }
    }
}

} // verus!
