use vstd::prelude::*;
use std::collections::VecDeque;
use crate::cell::CellSignature;
use crate::keyed::{KeyedMap, KeyedSet};

verus! {

/// The cells each cell of a map of edges leads to, as sets of names.
pub open spec fn edge_map(m: &KeyedMap<CellSignature, KeyedSet<CellSignature>>) -> Map<Seq<char>, Set<Seq<char>>> {
    Map::new(|k: Seq<char>| m.has(k), |k: Seq<char>| m.at(k).as_set())
}

/// The graph of dependencies between cells: `nexts` maps a cell to the
/// cells that depend on it, `lasts` a cell to the cells it depends on, and
/// `starts` lists the cells a walk begins with.
#[derive(Debug)]
pub struct DependencyGraph {
    pub nodes: KeyedSet<CellSignature>,
    pub starts: Vec<CellSignature>,
    pub nexts: KeyedMap<CellSignature, KeyedSet<CellSignature>>,
    pub lasts: KeyedMap<CellSignature, KeyedSet<CellSignature>>,
}

/// `m` with `to` added to the set of `from`.
pub open spec fn add_edge(m: Map<Seq<char>, Set<Seq<char>>>, from: Seq<char>, to: Seq<char>) -> Map<Seq<char>, Set<Seq<char>>> {
    m.insert(from, if m.dom().contains(from) { m[from] } else { Set::empty() }.insert(to))
}

/// Adds `to` to the set of `from` in a map of edges.
fn add_to_edges(m: &mut KeyedMap<CellSignature, KeyedSet<CellSignature>>, from: CellSignature, to: CellSignature)
    ensures
        edge_map(final(m)) == add_edge(edge_map(old(m)), from@, to@),
{
    let ghost f = from@;
    let ghost t = to@;
    let mut set = match m.remove(&from) {
        Some(s) => s,
        None => KeyedSet::new(),
    };
    let ghost mid = *m;
    set.insert(to);
    let ghost sv = set;
    m.insert(from, set);
    proof {
        assert forall|k: Seq<char>| #[trigger] m.has(k) == (old(m).has(k) || k == f) by {
            assert(m.as_map().dom().contains(k) == m.has(k));
            assert(mid.as_map().dom().contains(k) == mid.has(k));
            assert(old(m).as_map().dom().contains(k) == old(m).has(k));
        }
        assert forall|k: Seq<char>| m.has(k) && k != f implies #[trigger] m.at(k) == old(m).at(k) by {
            assert(m.as_map()[k] == m.at(k));
            assert(mid.as_map().dom().contains(k) == mid.has(k));
            assert(mid.as_map()[k] == mid.at(k));
            assert(old(m).as_map()[k] == old(m).at(k));
        }
        assert(m.as_map()[f] == m.at(f));
        assert(sv.as_set() =~= if edge_map(old(m)).dom().contains(f) { edge_map(old(m))[f] } else {
            Set::<Seq<char>>::empty()
        }.insert(t));
        assert(edge_map(m) =~= add_edge(edge_map(old(m)), f, t));
    }
}

impl DependencyGraph {
    /// A graph with no cells.
    pub fn new() -> (res: Self)
        ensures
            res.nodes.as_set() == Set::<Seq<char>>::empty(),
            res.starts@ == Seq::<CellSignature>::empty(),
            edge_map(&res.nexts) == Map::<Seq<char>, Set<Seq<char>>>::empty(),
            edge_map(&res.lasts) == Map::<Seq<char>, Set<Seq<char>>>::empty(),
    {
        let r = Self { nodes: KeyedSet::new(), starts: Vec::new(), nexts: KeyedMap::new(), lasts: KeyedMap::new() };
        proof {
            assert(r.nodes.as_set() =~= Set::<Seq<char>>::empty());
            assert(edge_map(&r.nexts) =~= Map::<Seq<char>, Set<Seq<char>>>::empty());
            assert(edge_map(&r.lasts) =~= Map::<Seq<char>, Set<Seq<char>>>::empty());
        }
        r
    }

    /// Records that `to` depends on `from`.  Both must be cells of the graph:
    /// the first one that is not is handed back as the error, and the graph
    /// is left as it was.
    pub fn connect(&mut self, from: CellSignature, to: CellSignature) -> (res: Result<(), CellSignature>)
        ensures
            final(self).nodes == old(self).nodes,
            final(self).starts == old(self).starts,
            !old(self).nodes.has(from@) ==> res == Err::<(), CellSignature>(from)
                && final(self).nexts == old(self).nexts && final(self).lasts == old(self).lasts,
            old(self).nodes.has(from@) && !old(self).nodes.has(to@) ==> res == Err::<(), CellSignature>(to)
                && final(self).nexts == old(self).nexts && final(self).lasts == old(self).lasts,
            old(self).nodes.has(from@) && old(self).nodes.has(to@) ==> res is Ok
                && edge_map(&final(self).nexts) == add_edge(edge_map(&old(self).nexts), from@, to@)
                && edge_map(&final(self).lasts) == add_edge(edge_map(&old(self).lasts), to@, from@),
    {
        if !self.nodes.contains(&from) {
            return Err(from);
        }
        if !self.nodes.contains(&to) {
            return Err(to);
        }
        add_to_edges(&mut self.nexts, from.duplicate(), to.duplicate());
        add_to_edges(&mut self.lasts, to, from);
        Ok(())
    }

    /// A breadth-first walk of the graph that starts from the start cells
    /// and goes along `nexts`.
    pub fn post_order_iter(&self) -> (res: DependencyTreeIterator<'_>)
        ensures
            res.edges() == self.nexts,
            res.queue() == self.starts@.map_values(|c: CellSignature| c@),
    {
        let mut q: VecDeque<CellSignature> = VecDeque::new();
        let mut i: usize = 0;
        while i < self.starts.len()
            invariant
                i <= self.starts@.len(),
                q@.map_values(|c: CellSignature| c@) == self.starts@.map_values(|c: CellSignature| c@).take(i as int),
            decreases self.starts.len() - i,
        {
            q.push_back(self.starts[i].duplicate());
            proof {
                let s = self.starts@.map_values(|c: CellSignature| c@);
                assert(s.take(i + 1) =~= s.take(i as int).push(s[i as int]));
                assert(q@.map_values(|c: CellSignature| c@) =~= s.take(i + 1));
            }
            i = i + 1;
        }
        proof {
            let s = self.starts@.map_values(|c: CellSignature| c@);
            assert(s.take(self.starts@.len() as int) =~= s);
        }
        DependencyTreeIterator { nexts: &self.nexts, q }
    }
}

/// A breadth-first walk over the `nexts` edges of a dependency graph.
pub struct DependencyTreeIterator<'a> {
    nexts: &'a KeyedMap<CellSignature, KeyedSet<CellSignature>>,
    q: VecDeque<CellSignature>,
}

impl<'a> DependencyTreeIterator<'a> {
    /// The edges the walk follows.
    pub closed spec fn edges(&self) -> KeyedMap<CellSignature, KeyedSet<CellSignature>> {
        *self.nexts
    }

    /// The cells waiting to be visited, in order.
    pub closed spec fn queue(&self) -> Seq<Seq<char>> {
        self.q@.map_values(|c: CellSignature| c@)
    }

    /// The next cell of the walk: the first waiting cell, whose `nexts` are
    /// then queued in their stored order; `None` when no cell waits.  Every
    /// cell visited must have an entry in `nexts`.
    pub fn next(&mut self) -> (res: Option<CellSignature>)
        requires
            old(self).queue().len() > 0 ==> old(self).edges().has(old(self).queue()[0]),
        ensures
            final(self).edges() == old(self).edges(),
            old(self).queue().len() == 0 ==> res is None && final(self).queue() == old(self).queue(),
            old(self).queue().len() > 0 ==> res is Some && res.unwrap()@ == old(self).queue()[0]
                && final(self).queue() == old(self).queue().drop_first()
                    + old(self).edges().at(old(self).queue()[0]).elems(),
    {
        if self.q.len() == 0 {
            return None;
        }
        let ghost q0 = self.queue();
        let top = self.q.pop_front().unwrap();
        proof {
            assert(self.queue() =~= q0.drop_first());
        }
        let set = self.nexts.get(&top).unwrap();
        let mut i: usize = 0;
        while i < set.len()
            invariant
                i <= set.elems().len(),
                self.edges() == old(self).edges(),
                self.queue() == q0.drop_first() + set.elems().take(i as int),
            decreases set.elems().len() - i,
        {
            let ghost before = self.queue();
            self.q.push_back(set.member_at(i).duplicate());
            proof {
                assert(set.elems().take(i + 1) =~= set.elems().take(i as int).push(set.elems()[i as int]));
                assert(self.queue() =~= before.push(set.elems()[i as int]));
            }
            i = i + 1;
        }
        proof {
            assert(set.elems().take(set.elems().len() as int) =~= set.elems());
        }
        Some(top)
    }
}

} // verus!
