use vstd::prelude::*;
use crate::cell::CellSignature;
use crate::strings::{append_strings, copy_strings, slice_strings, strings_equal};
use crate::keyed::KeyedMap;

verus! {

/// The abstract value of a route: the name of its root cell and the
/// names along its path.
pub struct RouteView {
    pub root: Seq<char>,
    pub path: Seq<Seq<char>>,
}

impl RouteView {
    /// `self` with `more` appended to its path.
    pub open spec fn extend(self, more: Seq<Seq<char>>) -> RouteView {
        RouteView { root: self.root, path: self.path + more }
    }

    /// The route made of the root and the first `n` names of the path.
    pub open spec fn prefix(self, n: int) -> RouteView {
        RouteView { root: self.root, path: self.path.take(n) }
    }

    /// The last name of the route: the last path entry, or the root's name.
    pub open spec fn last_name(self) -> Seq<char> {
        if self.path.len() == 0 {
            self.root
        } else {
            self.path.last()
        }
    }

    /// `self` has the same root as `other` and its path starts `other`'s path.
    pub open spec fn is_prefix_of(self, other: RouteView) -> bool {
        &&& self.root == other.root
        &&& self.path.len() <= other.path.len()
        &&& self.path == other.path.take(self.path.len() as int)
    }

    /// The route one level up, if there is one.
    pub open spec fn parent(self) -> Option<RouteView> {
        if self.path.len() == 0 {
            None
        } else {
            Some(RouteView { root: self.root, path: self.path.drop_last() })
        }
    }
}

/// Every route lies above itself.
pub proof fn lemma_prefix_reflexive(r: RouteView)
    ensures
        r.is_prefix_of(r),
{
    assert(r.path.take(r.path.len() as int) =~= r.path);
}

/// A route above a route above a third lies above the third.
pub proof fn lemma_prefix_transitive(a: RouteView, b: RouteView, c: RouteView)
    requires
        a.is_prefix_of(b),
        b.is_prefix_of(c),
    ensures
        a.is_prefix_of(c),
{
    assert(c.path.take(a.path.len() as int) =~= c.path.take(b.path.len() as int).take(a.path.len() as int));
}

/// Two routes each above the other are the same route.
pub proof fn lemma_prefix_antisymmetric(a: RouteView, b: RouteView)
    requires
        a.is_prefix_of(b),
        b.is_prefix_of(a),
    ensures
        a == b,
{
    assert(a.path =~= b.path);
}

/// Every prefix of a route lies above it, and the prefix of its full
/// length is the route itself.
pub proof fn lemma_prefix_of_route(r: RouteView, n: int)
    requires
        0 <= n <= r.path.len(),
    ensures
        r.prefix(n).is_prefix_of(r),
        r.prefix(r.path.len() as int) == r,
{
    assert(r.path.take(r.path.len() as int) =~= r.path);
    assert(r.path.take(n).len() == n);
}

/// A route extended by some names has the route above it, and going up
/// from a route extended by one name gives the route back.
pub proof fn lemma_extend_parent(r: RouteView, name: Seq<char>)
    ensures
        r.is_prefix_of(r.extend(seq![name])),
        r.extend(seq![name]).parent() == Some(r),
        r.extend(seq![name]).last_name() == name,
{
    assert((r.path + seq![name]).take(r.path.len() as int) =~= r.path);
    assert((r.path + seq![name]).drop_last() =~= r.path);
}

/// A path of names under a root cell, such as `[cell] a::b::c`.
#[derive(Debug)]
pub struct Route {
    pub root: CellSignature,
    pub path: Vec<String>,
}

/// A route that names a definition where it is written.
pub type CanonicalRoute = Route;

/// A route that names a concrete definition.
pub type ConcreteRoute = Route;

/// A route that names an alias.
pub type AliasRoute = Route;

impl View for Route {
    type V = RouteView;

    open spec fn view(&self) -> RouteView {
        RouteView { root: self.root@, path: self.path.deep_view() }
    }
}

impl Route {
    /// A copy of this route.
    pub fn duplicate(&self) -> (res: Route)
        ensures
            res@ == self@,
    {
        Route { root: self.root.duplicate(), path: copy_strings(&self.path) }
    }

    /// Whether two routes have the same root and path.
    pub fn same_as(&self, other: &Route) -> (res: bool)
        ensures
            res == (self@ == other@),
    {
        let r = self.root.same_as(&other.root) && strings_equal(&self.path, &other.path);
        proof {
            if self@ == other@ {
                assert(r);
            }
        }
        r
    }

    /// The route of a cell itself, with an empty path.
    pub fn new_root(root: CellSignature) -> (res: Route)
        ensures
            res@ == (RouteView { root: root@, path: Seq::empty() }),
    {
        let r = Route { root, path: Vec::new() };
        proof {
            assert(r.path.deep_view() =~= Seq::<Seq<char>>::empty());
        }
        r
    }

    /// The route of a cell itself, with an empty path.
    pub fn new(root: CellSignature) -> (res: Route)
        ensures
            res@ == (RouteView { root: root@, path: Seq::empty() }),
    {
        let r = Self::new_from_vec_str(root, Vec::new());
        proof {
            assert(r.path.deep_view() =~= Seq::<Seq<char>>::empty());
        }
        r
    }

    /// The route with the given root and path.
    pub fn new_from_vec_str(root: CellSignature, vec_str: Vec<String>) -> (res: Route)
        ensures
            res@ == (RouteView { root: root@, path: vec_str.deep_view() }),
    {
        Route { root, path: vec_str }
    }

    /// `route` with the names of `new` appended to its path.
    pub fn chain(route: Route, new: Vec<String>) -> (res: Route)
        ensures
            res@ == route@.extend(new.deep_view()),
    {
        Route { root: route.root, path: append_strings(route.path, &new) }
    }

    /// `route` with one more name appended to its path.
    pub fn chain_one(route: Route, new: String) -> (res: Route)
        ensures
            res@ == route@.extend(seq![new@]),
    {
        let ghost n = new@;
        let mut v: Vec<String> = Vec::new();
        v.push(new);
        proof {
            assert(v.deep_view() =~= seq![n]);
        }
        Route::chain(route, v)
    }

    /// When the first name of `new` is the last name of `route`, the route
    /// extended by the rest of `new`; otherwise (and when `new` is empty)
    /// `None`.
    pub fn ignore_new_first_chain(route: &Route, new: Vec<String>) -> (res: Option<Route>)
        ensures
            match res {
                Some(r) => new.len() > 0 && route@.last_name() == new.deep_view()[0]
                    && r@ == route@.extend(new.deep_view().skip(1)),
                None => new.len() == 0 || route@.last_name() != new.deep_view()[0],
            },
    {
        if new.len() == 0 {
            return None;
        }
        let last = route.get_last_name();
        if last == new[0] {
            let rest = slice_strings(&new, 1, new.len());
            proof {
                assert(new.deep_view().subrange(1, new.len() as int) =~= new.deep_view().skip(1));
            }
            Some(Route { root: route.root.duplicate(), path: append_strings(copy_strings(&route.path), &rest) })
        } else {
            None
        }
    }

    /// `original` with the names of `other` appended to its path.
    pub fn concat(original: Route, other: Vec<String>) -> (res: Route)
        ensures
            res@ == original@.extend(other.deep_view()),
    {
        Route { root: original.root, path: append_strings(original.path, &other) }
    }

    /// The route without the last name of its path; `None` for a cell root.
    pub fn get_parent_route(&self) -> (res: Option<Route>)
        ensures
            match res {
                Some(r) => self@.parent() == Some(r@),
                None => self@.parent().is_none(),
            },
    {
        if self.path.len() == 0 {
            None
        } else {
            let p = slice_strings(&self.path, 0, self.path.len() - 1);
            proof {
                assert(self.path.deep_view().subrange(0, self.path.len() - 1)
                    =~= self.path.deep_view().drop_last());
            }
            Some(Route { root: self.root.duplicate(), path: p })
        }
    }

    /// The last name of the path, or the root cell's name for a cell root.
    pub fn get_last_name(&self) -> (res: String)
        ensures
            res@ == self@.last_name(),
    {
        if self.path.len() == 0 {
            self.root.to_text()
        } else {
            self.path[self.path.len() - 1].clone()
        }
    }
}

impl Route {
    /// Whether `ancestor` is `precedence` or lies above it.
    pub fn is_ancestor(ancestor: &Self, precedence: &Self) -> (res: bool)
        ensures
            res == ancestor@.is_prefix_of(precedence@),
    {
        Self::is_prefix(ancestor, precedence)
    }

    /// The route of the root cell of this route.
    pub fn get_cell_signature_root_route(&self) -> (res: Self)
        ensures
            res@ == self@.prefix(0),
    {
        self.get_route_prefix(0)
    }

    /// The route made of the root and the first `index_size` names.
    pub fn get_route_prefix(&self, index_size: usize) -> (res: Self)
        requires
            index_size <= self.path.len(),
        ensures
            res@ == self@.prefix(index_size as int),
    {
        let p = slice_strings(&self.path, 0, index_size);
        proof {
            assert(self.path.deep_view().subrange(0, index_size as int)
                =~= self.path.deep_view().take(index_size as int));
        }
        Self { root: self.root.duplicate(), path: p }
    }

    /// The route of the module that holds the definition this route names.
    pub fn get_module_route(&self) -> (res: Self)
        requires
            self.path.len() > 0,
        ensures
            res@ == self@.prefix(self.path.len() - 1),
    {
        let p = slice_strings(&self.path, 0, self.path.len() - 1);
        proof {
            assert(self.path.deep_view().subrange(0, self.path.len() - 1)
                =~= self.path.deep_view().take(self.path.len() - 1));
        }
        Self { root: self.root.duplicate(), path: p }
    }

    /// Whether `s1` has the root of `s2` and its path begins `s2`'s path.
    pub fn is_prefix(s1: &Self, s2: &Self) -> (res: bool)
        ensures
            res == s1@.is_prefix_of(s2@),
    {
        if !s1.root.same_as(&s2.root) || s1.path.len() > s2.path.len() {
            return false;
        }
        let mut i: usize = 0;
        while i < s1.path.len()
            invariant
                i <= s1.path.len(),
                s1.path.len() <= s2.path.len(),
                s1.path.deep_view().take(i as int) == s2.path.deep_view().take(i as int),
            decreases s1.path.len() - i,
        {
            if s1.path[i] != s2.path[i] {
                proof {
                    assert(s2.path.deep_view().take(s1.path.len() as int)[i as int]
                        == s2.path.deep_view()[i as int]);
                }
                return false;
            }
            proof {
                assert(s1.path.deep_view().take(i + 1) =~= s1.path.deep_view().take(i as int).push(
                    s1.path[i as int]@,
                ));
                assert(s2.path.deep_view().take(i + 1) =~= s2.path.deep_view().take(i as int).push(
                    s2.path[i as int]@,
                ));
            }
            i = i + 1;
        }
        proof {
            assert(s1.path.deep_view().take(s1.path.len() as int) =~= s1.path.deep_view());
        }
        true
    }
}


/// Whether the path of `base` is a proper beginning of the path of
/// `extended` (the roots are not compared).
pub open spec fn path_strictly_extends(base: RouteView, extended: RouteView) -> bool {
    &&& base.path.len() < extended.path.len()
    &&& extended.path.take(base.path.len() as int) == base.path
}

/// The number of leading names two lists of names share.
fn common_prefix_len(a: &Vec<String>, b: &Vec<String>) -> (res: usize)
    requires
        a.len() <= b.len(),
    ensures
        res <= a.len(),
        a.deep_view().take(res as int) == b.deep_view().take(res as int),
        res < a.len() ==> a.deep_view()[res as int] != b.deep_view()[res as int],
{
    let mut i: usize = 0;
    while i < a.len() && a[i] == b[i]
        invariant
            i <= a.len(),
            a.len() <= b.len(),
            a.deep_view().take(i as int) == b.deep_view().take(i as int),
        decreases a.len() - i,
    {
        proof {
            assert(a.deep_view().take(i + 1) =~= a.deep_view().take(i as int).push(a[i as int]@));
            assert(b.deep_view().take(i + 1) =~= b.deep_view().take(i as int).push(b[i as int]@));
        }
        i = i + 1;
    }
    i
}

impl Route {
    /// The route a relative path stands for: its first name is looked up in
    /// `name_routes`, whose route must end with that very name, and the rest
    /// of the path is appended.  `None` where the first name is unknown.
    pub fn new_from_relative_path(name_routes: &KeyedMap<String, CanonicalRoute>, relative_path: Vec<String>) -> (res: Option<CanonicalRoute>)
        requires
            relative_path.len() > 0,
            name_routes.has(relative_path[0]@) ==> name_routes.at(relative_path[0]@)@.last_name()
                == relative_path[0]@,
        ensures
            match res {
                Some(r) => name_routes.has(relative_path[0]@) && r@ == name_routes.at(
                    relative_path[0]@,
                )@.extend(relative_path.deep_view().skip(1)),
                None => !name_routes.has(relative_path[0]@),
            },
    {
        match name_routes.get(&relative_path[0]) {
            Some(route) => {
                let r = Route::ignore_new_first_chain(route, relative_path);
                match r {
                    Some(r) => Some(r),
                    None => None,
                }
            },
            None => None,
        }
    }

    /// When the path of `root_route` is a proper beginning of the path of
    /// `extended_route`, the route `root_route_alternative` extended by the
    /// one name of `extended_route` that follows that beginning; otherwise
    /// `None`.  The roots of the routes are not compared.
    pub fn get_one_entry_longer(root_route: CanonicalRoute, root_route_alternative: CanonicalRoute, extended_route: CanonicalRoute) -> (res: Option<CanonicalRoute>)
        ensures
            match res {
                Some(r) => path_strictly_extends(root_route@, extended_route@) && r@ == root_route_alternative@.extend(
                    seq![extended_route@.path[root_route@.path.len() as int]],
                ),
                None => !path_strictly_extends(root_route@, extended_route@),
            },
    {
        if root_route.path.len() >= extended_route.path.len() {
            return None;
        }
        let i = common_prefix_len(&root_route.path, &extended_route.path);
        if i != root_route.path.len() {
            proof {
                assert(extended_route.path.deep_view().take(root_route.path.len() as int)[i as int]
                    == extended_route.path.deep_view()[i as int]);
            }
            return None;
        }
        proof {
            assert(root_route.path.deep_view().take(i as int) =~= root_route.path.deep_view());
        }
        let next = extended_route.path[i].clone();
        Some(Route::chain_one(root_route_alternative, next))
    }

    /// When the path of `root_route` is a proper beginning of the path of
    /// `extended_route`, the route `shadow_route` extended by the names of
    /// `extended_route` that follow that beginning; otherwise `None`.  The
    /// roots of the routes are not compared.
    pub fn shadow_route(root_route: CanonicalRoute, shadow_route: CanonicalRoute, extended_route: CanonicalRoute) -> (res: Option<CanonicalRoute>)
        ensures
            match res {
                Some(r) => path_strictly_extends(root_route@, extended_route@) && r@ == shadow_route@.extend(
                    extended_route@.path.skip(root_route@.path.len() as int),
                ),
                None => !path_strictly_extends(root_route@, extended_route@),
            },
    {
        if root_route.path.len() >= extended_route.path.len() {
            return None;
        }
        let i = common_prefix_len(&root_route.path, &extended_route.path);
        if i != root_route.path.len() {
            proof {
                assert(extended_route.path.deep_view().take(root_route.path.len() as int)[i as int]
                    == extended_route.path.deep_view()[i as int]);
            }
            return None;
        }
        proof {
            assert(root_route.path.deep_view().take(i as int) =~= root_route.path.deep_view());
        }
        let rest = slice_strings(&extended_route.path, i, extended_route.path.len());
        proof {
            assert(extended_route.path.deep_view().subrange(i as int, extended_route.path.len() as int)
                =~= extended_route.path.deep_view().skip(i as int));
        }
        Some(Route::chain(shadow_route, rest))
    }

    /// A walk over the prefixes of this route, from the route itself down to
    /// its root.
    pub fn into_prefix_iter(self) -> (res: RoutePrefixIterator)
        ensures
            res.pending() == Seq::new(
                (self@.path.len() + 1) as nat,
                |j: int| self@.prefix(self@.path.len() - j),
            ),
    {
        let len = self.path.len();
        let r = RoutePrefixIterator { route: self, current_len: Some(len) };
        proof {
            assert(r.pending() =~= Seq::new(
                (self@.path.len() + 1) as nat,
                |j: int| self@.prefix(self@.path.len() - j),
            ));
        }
        r
    }
}

/// A walk over the prefixes of a route, longest first.
pub struct RoutePrefixIterator {
    route: Route,
    current_len: Option<usize>,
}

impl RoutePrefixIterator {
    #[verifier::type_invariant]
    closed spec fn inv(&self) -> bool {
        match self.current_len {
            Some(n) => n <= self.route.path.len(),
            None => true,
        }
    }

    /// The prefixes still to come, in the order they will come.
    pub closed spec fn pending(&self) -> Seq<RouteView> {
        match self.current_len {
            Some(n) => Seq::new((n + 1) as nat, |j: int| self.route@.prefix(n - j)),
            None => Seq::empty(),
        }
    }

    /// The next prefix, if any is left.
    pub fn next(&mut self) -> (res: Option<Route>)
        ensures
            old(self).pending().len() == 0 ==> res is None && final(self).pending() == old(self).pending(),
            old(self).pending().len() > 0 ==> res is Some && res.unwrap()@ == old(self).pending()[0]
                && final(self).pending() == old(self).pending().drop_first(),
    {
        proof {
            use_type_invariant(&*self);
        }
        match self.current_len {
            Some(len) => {
                let result = self.route.get_route_prefix(len);
                if len == 0 {
                    self.current_len = None;
                } else {
                    self.current_len = Some(len - 1);
                }
                proof {
                    assert(self.pending() =~= old(self).pending().drop_first());
                }
                Some(result)
            },
            None => None,
        }
    }
}

} // verus!
