use vstd::prelude::*;
use crate::keyed::KeyedMap;
use crate::route::{CanonicalRoute, RouteView};

verus! {

/// The routes stored in a table of roots, by root name.
pub open spec fn root_map(m: &KeyedMap<String, CanonicalRoute>) -> Map<Seq<char>, RouteView> {
    Map::new(|k: Seq<char>| m.has(k), |k: Seq<char>| m.at(k)@)
}

/// The route `name` stands for in a root table: a cell root first, then a
/// relative root; keyword roots are not consulted.
pub open spec fn root_lookup(v: RouteRootTableView, name: Seq<char>) -> Option<RouteView> {
    if v.common.dom().contains(name) {
        Some(v.common[name])
    } else if v.relative.dom().contains(name) {
        Some(v.relative[name])
    } else {
        None
    }
}

/// A name just recorded as a relative root stands for the route recorded
/// for it, unless it is a cell root; the other names keep what they stood
/// for.
pub proof fn lemma_root_lookup_after_insert(v: RouteRootTableView, name: Seq<char>, r: RouteView, other: Seq<char>)
    requires
        !v.common.dom().contains(name),
        other != name,
    ensures
        root_lookup((RouteRootTableView { relative: v.relative.insert(name, r), ..v }), name) == Some(r),
        root_lookup((RouteRootTableView { relative: v.relative.insert(name, r), ..v }), other) == root_lookup(v, other),
{
}

/// The abstract value of a root table: its three maps from root names to
/// routes.
pub struct RouteRootTableView {
    pub common: Map<Seq<char>, RouteView>,
    pub keyword: Map<Seq<char>, RouteView>,
    pub relative: Map<Seq<char>, RouteView>,
}

/// The names a route may start with inside a module, and the routes they
/// stand for: cell names (common roots), relative keywords, and the names
/// defined in the module (relative roots).
#[derive(Debug)]
pub struct RouteRootTable {
    common_root_table: KeyedMap<String, CanonicalRoute>,
    keyword_root_table: KeyedMap<String, CanonicalRoute>,
    relative_root_table: KeyedMap<String, CanonicalRoute>,
}

impl View for RouteRootTable {
    type V = RouteRootTableView;

    closed spec fn view(&self) -> RouteRootTableView {
        RouteRootTableView {
            common: root_map(&self.common_root_table),
            keyword: root_map(&self.keyword_root_table),
            relative: root_map(&self.relative_root_table),
        }
    }
}

/// A copy of a table of roots.
fn copy_roots(m: &KeyedMap<String, CanonicalRoute>) -> (res: KeyedMap<String, CanonicalRoute>)
    ensures
        root_map(&res) == root_map(m),
{
    proof {
        use_type_invariant(m);
        m.lemma_lengths();
    }
    let mut res: KeyedMap<String, CanonicalRoute> = KeyedMap::new();
    let mut i: usize = 0;
    while i < m.len()
        invariant
            m.inv(),
            i <= m.size(),
            m.keys().len() == m.size(),
            forall|k: Seq<char>| res.has(k) <==> exists|j: int| 0 <= j < i && #[trigger] m.keys()[j] == k,
            forall|j: int| 0 <= j < i ==> #[trigger] res.at(m.keys()[j])@ == m.values()[j]@,
        decreases m.size() - i,
    {
        let k = m.key_at(i).clone();
        let v = m.value_at(i).duplicate();
        proof {
            m.lemma_entry(i as int);
        }
        res.insert(k, v);
        proof {
            assert forall|j: int| 0 <= j < i + 1 implies #[trigger] res.at(m.keys()[j])@ == m.values()[j]@ by {
                if j < i {
                    assert(m.keys()[j] != m.keys()[i as int]);
                }
            }
            assert forall|k2: Seq<char>| res.has(k2) <==> exists|j: int| 0 <= j < i + 1 && m.keys()[j] == k2 by {
                if k2 == m.keys()[i as int] {
                    assert(m.keys()[i as int] == k2);
                }
            }
        }
        i = i + 1;
    }
    proof {
        assert forall|k: Seq<char>| res.has(k) == m.has(k) by {
            if m.has(k) {
                m.lemma_key_index(k);
                let j = m.keys().index_of(k);
                assert(0 <= j < m.size() && m.keys()[j] == k);
            }
            if res.has(k) {
                let j = choose|j: int| 0 <= j < i && m.keys()[j] == k;
                assert(0 <= j < m.keys().len() && m.keys()[j] == k);
                assert(m.keys().contains(k));
            }
        }
        assert forall|k: Seq<char>| m.has(k) implies res.at(k)@ == m.at(k)@ by {
            m.lemma_key_index(k);
        }
        assert(root_map(&res) =~= root_map(m));
    }
    res
}

impl RouteRootTable {
    /// No relative keyword is ever recorded in the keyword table: the
    /// insertions all go to the relative roots.
    #[verifier::type_invariant]
    pub open spec fn inv(&self) -> bool {
        self@.keyword.dom() == Set::<Seq<char>>::empty()
    }

    /// A table with no roots.
    pub fn new() -> (res: Self)
        ensures
            res@.common == Map::<Seq<char>, RouteView>::empty(),
            res@.keyword == Map::<Seq<char>, RouteView>::empty(),
            res@.relative == Map::<Seq<char>, RouteView>::empty(),
    {
        let kw: KeyedMap<String, CanonicalRoute> = KeyedMap::new();
        proof {
            assert(root_map(&kw).dom() =~= Set::<Seq<char>>::empty());
        }
        let r = Self {
            common_root_table: KeyedMap::new(),
            keyword_root_table: kw,
            relative_root_table: KeyedMap::new(),
        };
        proof {
            assert(root_map(&r.common_root_table) =~= Map::<Seq<char>, RouteView>::empty());
            assert(root_map(&r.keyword_root_table) =~= Map::<Seq<char>, RouteView>::empty());
            assert(r@.keyword.dom() =~= Set::<Seq<char>>::empty());
            assert(root_map(&r.relative_root_table) =~= Map::<Seq<char>, RouteView>::empty());
        }
        r
    }

    /// A copy of this table.
    pub fn duplicate(&self) -> (res: Self)
        ensures
            res@ == self@,
    {
        proof {
            use_type_invariant(self);
        }
        Self {
            common_root_table: copy_roots(&self.common_root_table),
            keyword_root_table: copy_roots(&self.keyword_root_table),
            relative_root_table: copy_roots(&self.relative_root_table),
        }
    }

    /// Records the root of a cell under `root_name`.  The entry goes to the
    /// relative roots, as do the entries of the other two insertions.
    pub fn insert_common(&mut self, root_name: String, route: CanonicalRoute)
        ensures
            final(self)@.common == old(self)@.common,
            final(self)@.keyword == old(self)@.keyword,
            final(self)@.relative == old(self)@.relative.insert(root_name@, route@),
    {
        self.insert_relative(root_name, route);
    }

    /// Records the route a relative keyword stands for.
    pub fn insert_relative_keyword(&mut self, root_name: String, route: CanonicalRoute)
        ensures
            final(self)@.common == old(self)@.common,
            final(self)@.keyword == old(self)@.keyword,
            final(self)@.relative == old(self)@.relative.insert(root_name@, route@),
    {
        self.insert_relative(root_name, route);
    }

    /// Records the route of a name defined in the module.
    pub fn insert_relative_defined(&mut self, root_name: String, route: CanonicalRoute)
        ensures
            final(self)@.common == old(self)@.common,
            final(self)@.keyword == old(self)@.keyword,
            final(self)@.relative == old(self)@.relative.insert(root_name@, route@),
    {
        self.insert_relative(root_name, route);
    }

    fn insert_relative(&mut self, root_name: String, route: CanonicalRoute)
        ensures
            final(self)@.common == old(self)@.common,
            final(self)@.keyword == old(self)@.keyword,
            final(self)@.relative == old(self)@.relative.insert(root_name@, route@),
    {
        proof {
            use_type_invariant(&*self);
        }
        let ghost n = root_name@;
        let ghost rv = route@;
        let mut t: KeyedMap<String, CanonicalRoute> = KeyedMap::new();
        std::mem::swap(&mut t, &mut self.relative_root_table);
        t.insert(root_name, route);
        proof {
            assert(root_map(&t) =~= old(self)@.relative.insert(n, rv));
        }
        self.relative_root_table = t;
    }

    /// Whether `root_name` is a cell name or a relative keyword.
    pub fn is_common_or_keyword_root(&self, root_name: &String) -> (res: bool)
        ensures
            res == (self@.common.dom().contains(root_name@) || self@.keyword.dom().contains(root_name@)),
    {
        self.common_root_table.contains_key(root_name) || self.keyword_root_table.contains_key(root_name)
    }

    /// Whether `root_name` is a relative root.
    pub fn is_relative_root(&self, root_name: &String) -> (res: bool)
        ensures
            res == self@.relative.dom().contains(root_name@),
    {
        self.relative_root_table.contains_key(root_name)
    }

    /// Whether `root_name` is any kind of root.
    pub fn contains(&self, root_name: &String) -> (res: bool)
        ensures
            res == (self@.common.dom().contains(root_name@) || self@.keyword.dom().contains(root_name@)
                || self@.relative.dom().contains(root_name@)),
    {
        self.is_common_or_keyword_root(root_name) || self.is_relative_root(root_name)
    }

    /// The route `root_name` stands for: a cell root first, then a relative
    /// root.  Keyword roots are not consulted.
    pub fn get_root_route(&self, root_name: &String) -> (res: Option<CanonicalRoute>)
        ensures
            match res {
                Some(r) => root_lookup(self@, root_name@) == Some(r@),
                None => root_lookup(self@, root_name@) is None,
            },
    {
        match self.common_root_table.get(root_name) {
            Some(r) => Some(r.duplicate()),
            None => match self.relative_root_table.get(root_name) {
                Some(r) => Some(r.duplicate()),
                None => None,
            },
        }
    }
}

} // verus!
