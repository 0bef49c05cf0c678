use vstd::prelude::*;
use crate::cell::CellSignature;
use crate::dependency_graph::DependencyGraph;
use crate::keyed::{KeyedMap, KeyedSet};
use crate::lookup_canonical_route::{GrandModuleSkeletonTable, cell_tables};
use crate::module_merge::{GrandModuleMergeTable, MergedModuleTable, module_table};
use crate::module_skeleton::{ModuleSkeletonTable, SkeletonTableView, build_table, this_cell_keyword, this_cell_keyword_name};
use crate::name_errors::copy_name_errors;
use crate::alias_resolution::{error_views, kept_form, lemma_kept_form, resolved_from};
use crate::name_errors::NameErrorView;
use crate::def_signature::SignatureView;
use crate::route::{Route, RouteView};
use crate::route_root_table::{RouteRootTable, RouteRootTableView};

verus! {

/// The names of a list of cells.
pub open spec fn cell_names(v: Seq<CellSignature>) -> Seq<Seq<char>> {
    v.map_values(|s: CellSignature| s@)
}

/// The route of the root module of cell `c`.
pub open spec fn cell_root(c: Seq<char>) -> RouteView {
    RouteView { root: c, path: Seq::empty() }
}

/// The roots a cell sees for its dependencies `deps`, each under the name
/// the cell gives it in `names`, later dependencies shadowing earlier ones.
pub open spec fn dependency_roots(deps: Seq<Seq<char>>, names: KeyedMap<CellSignature, String>) -> Map<Seq<char>, RouteView>
    decreases deps.len(),
{
    if deps.len() == 0 {
        Map::empty()
    } else {
        dependency_roots(deps.drop_last(), names).insert(names.at(deps.last())@, cell_root(deps.last()))
    }
}

/// The dependencies of `c` recorded in `lasts`, in stored order.
pub open spec fn dependencies_of(lasts: KeyedMap<CellSignature, KeyedSet<CellSignature>>, c: Seq<char>) -> Seq<Seq<char>> {
    if lasts.has(c) { lasts.at(c).elems() } else { Seq::empty() }
}

/// The root table cell `c` starts with: its dependencies under their alias
/// names, then its own name and the keyword for the current cell, all
/// leading to root modules.
pub open spec fn cell_root_table(
    lasts: KeyedMap<CellSignature, KeyedSet<CellSignature>>,
    aliases: KeyedMap<CellSignature, KeyedMap<CellSignature, String>>,
    c: Seq<char>,
) -> RouteRootTableView {
    RouteRootTableView {
        common: Map::empty(),
        keyword: Map::empty(),
        relative: dependency_roots(dependencies_of(lasts, c), aliases.at(c))
            .insert(c, cell_root(c))
            .insert(this_cell_keyword(), cell_root(c)),
    }
}

/// The cells a breadth-first walk along `edges` visits from `queue`, for at
/// most `fuel` steps.
pub open spec fn walk_order(edges: KeyedMap<CellSignature, KeyedSet<CellSignature>>, queue: Seq<Seq<char>>, fuel: nat) -> Seq<Seq<char>>
    decreases fuel,
{
    if fuel == 0 || queue.len() == 0 {
        Seq::empty()
    } else {
        seq![queue[0]] + walk_order(edges, queue.drop_first() + edges.at(queue[0]).elems(), (fuel - 1) as nat)
    }
}

/// The skeleton table that is built for cell `c`, before its aliases are
/// resolved.
pub open spec fn cell_skeleton_table(
    lasts: KeyedMap<CellSignature, KeyedSet<CellSignature>>,
    aliases: KeyedMap<CellSignature, KeyedMap<CellSignature, String>>,
    mmt: MergedModuleTable,
    c: Seq<char>,
) -> SkeletonTableView {
    build_table(cell_root(c), cell_root_table(lasts, aliases, c), mmt.m_modules.keys(), module_table(&mmt.m_modules))
}

/// Whether the signatures `new` that alias resolution kept of the
/// signatures `old`: every concrete one, unchanged, and otherwise only
/// aliases, each resolved with the form it had (see `kept_form`).
pub open spec fn signatures_kept(old: Map<RouteView, SignatureView>, new: Map<RouteView, SignatureView>) -> bool {
    &&& forall|r: RouteView| #[trigger] old.dom().contains(r) && old[r] is Concrete ==> new.dom().contains(r) && new[r] == old[r]
    &&& forall|r: RouteView| #[trigger] new.dom().contains(r) ==> old.dom().contains(r) && kept_form(old[r], new[r])
}

/// The error lists `segs`, one after the other.
pub open spec fn flatten_errors(segs: Seq<Seq<NameErrorView>>) -> Seq<NameErrorView>
    decreases segs.len(),
{
    if segs.len() == 0 {
        Seq::empty()
    } else {
        flatten_errors(segs.drop_last()) + segs.last()
    }
}

/// Whether `seg` is the errors a visit of cell `c` adds: the errors of its
/// tables `b` as built, then those that resolving its aliases adds (see
/// `resolved_from`).
pub open spec fn visit_errors(b: SkeletonTableView, c: Seq<char>, seg: Seq<NameErrorView>) -> bool {
    &&& seg.len() >= b.errors.len()
    &&& seg.take(b.errors.len() as int) == b.errors
    &&& exists|kept: Map<RouteView, SignatureView>| #[trigger] resolved_from(b, c, kept, seg.skip(b.errors.len() as int))
}

/// Every cell waiting in `queue` and every cell reachable from one along
/// `edges` has edges of its own and a merged module table.
pub open spec fn walk_closed(
    edges: KeyedMap<CellSignature, KeyedSet<CellSignature>>,
    gmmt: KeyedMap<CellSignature, MergedModuleTable>,
) -> bool {
    forall|c: Seq<char>, d: Seq<char>| #[trigger] edges.has(c) && #[trigger] edges.at(c).has(d) ==> edges.has(d) && gmmt.has(d)
}

/// The root table of cell `sign`, as `cell_root_table` describes it.
fn build_cell_root_table(
    lasts: &KeyedMap<CellSignature, KeyedSet<CellSignature>>,
    aliases: &KeyedMap<CellSignature, KeyedMap<CellSignature, String>>,
    sign: &CellSignature,
) -> (res: RouteRootTable)
    requires
        forall|d: Seq<char>| lasts.has(sign@) && #[trigger] lasts.at(sign@).has(d) ==> aliases.has(sign@) && aliases.at(sign@).has(d),
    ensures
        res@ == cell_root_table(*lasts, *aliases, sign@),
{
    let mut rrt = RouteRootTable::new();
    let ghost deps = dependencies_of(*lasts, sign@);
    match lasts.get(sign) {
        Some(set) => {
            if set.len() > 0 {
                proof {
                    assert(set.has(set.elems()[0]));
                }
                let names = aliases.get(sign).unwrap();
                let mut i: usize = 0;
                while i < set.len()
                    invariant
                        i <= set.elems().len(),
                        deps == set.elems(),
                        lasts.has(sign@),
                        *set == lasts.at(sign@),
                        aliases.has(sign@),
                        *names == aliases.at(sign@),
                        forall|d: Seq<char>| lasts.has(sign@) && #[trigger] lasts.at(sign@).has(d) ==> aliases.has(sign@) && aliases.at(sign@).has(d),
                        rrt@.common == Map::<Seq<char>, RouteView>::empty(),
                        rrt@.keyword == Map::<Seq<char>, RouteView>::empty(),
                        rrt@.relative == dependency_roots(deps.take(i as int), *names),
                    decreases set.elems().len() - i,
                {
                    let d = set.member_at(i);
                    proof {
                        assert(set.elems()[i as int] == d@);
                        assert(lasts.at(sign@).has(d@));
                    }
                    let name = names.get(d).unwrap().clone();
                    rrt.insert_common(name, Route::new_root(d.duplicate()));
                    proof {
                        assert(deps.take(i + 1).drop_last() =~= deps.take(i as int));
                    }
                    i = i + 1;
                }
                proof {
                    assert(deps.take(set.elems().len() as int) =~= deps);
                }
            } else {
                proof {
                    assert(deps =~= Seq::<Seq<char>>::empty());
                    assert(rrt@.relative =~= dependency_roots(deps, aliases.at(sign@)));
                }
            }
        },
        None => {
            proof {
                assert(rrt@.relative =~= dependency_roots(deps, aliases.at(sign@)));
            }
        },
    }
    rrt.insert_common(sign.name.clone(), Route::new_root(sign.duplicate()));
    rrt.insert_relative_keyword(this_cell_keyword_name(), Route::new_root(sign.duplicate()));
    rrt
}

impl GrandModuleSkeletonTable {
    /// Builds and resolves the name tables of every cell that a breadth-first
    /// walk of the dependency graph reaches from its start cells.  Each
    /// visited cell sees its dependencies under the names
    /// `dependency_alias` gives them, its own name and the keyword for the
    /// current cell; its skeleton table is built from its merged modules
    /// and then its aliases are resolved against the tables built so far.
    /// The walk stops after `usize::MAX` visits at the latest.
    pub fn new(
        dependency_alias: KeyedMap<CellSignature, KeyedMap<CellSignature, String>>,
        dependency_graph: &DependencyGraph,
        grand_module_merge_table: &GrandModuleMergeTable,
    ) -> (res: Self)
        requires
            forall|c: Seq<char>| #[trigger] cell_names(dependency_graph.starts@).contains(c)
                ==> dependency_graph.nexts.has(c) && grand_module_merge_table.cell_module_merge_tables.has(c),
            walk_closed(dependency_graph.nexts, grand_module_merge_table.cell_module_merge_tables),
            forall|c: Seq<char>, d: Seq<char>| #[trigger] dependency_graph.lasts.has(c) && #[trigger] dependency_graph.lasts.at(c).has(d)
                ==> dependency_alias.has(c) && dependency_alias.at(c).has(d),
        ensures
            ({
                let visits = walk_order(
                    dependency_graph.nexts,
                    cell_names(dependency_graph.starts@),
                    usize::MAX as nat,
                );
                let tables = cell_tables(&res.cell_module_skeleton_table);
                &&& forall|c: Seq<char>| #[trigger] tables.dom().contains(c) <==> visits.contains(c)
                &&& forall|c: Seq<char>| #[trigger] visits.contains(c) ==> {
                    let b = cell_skeleton_table(
                        dependency_graph.lasts,
                        dependency_alias,
                        grand_module_merge_table.cell_module_merge_tables.at(c),
                        c,
                    );
                    &&& tables[c].root == b.root
                    &&& tables[c].module_skeletons == b.module_skeletons
                    &&& tables[c].errors == b.errors
                    &&& signatures_kept(b.def_signatures, tables[c].def_signatures)
                    &&& exists|errs: Seq<NameErrorView>| #[trigger] resolved_from(b, c, tables[c].def_signatures, errs)
                }
                &&& exists|segs: Seq<Seq<NameErrorView>>| {
                    &&& segs.len() == visits.len()
                    &&& error_views(res.errors@) == flatten_errors(segs)
                    &&& forall|i: int| 0 <= i < visits.len() ==> #[trigger] visit_errors(
                        cell_skeleton_table(
                            dependency_graph.lasts,
                            dependency_alias,
                            grand_module_merge_table.cell_module_merge_tables.at(visits[i]),
                            visits[i],
                        ),
                        visits[i],
                        segs[i],
                    )
                }
            }),
    {
        let mut this = Self::new_empty();
        let ghost edges = dependency_graph.nexts;
        let ghost gmmt = grand_module_merge_table.cell_module_merge_tables;
        let ghost lasts = dependency_graph.lasts;
        let ghost starts = cell_names(dependency_graph.starts@);
        let ghost all = walk_order(edges, starts, usize::MAX as nat);
        let mut it = dependency_graph.post_order_iter();
        let ghost mut done: Seq<Seq<char>> = Seq::empty();
        let ghost mut segs: Seq<Seq<NameErrorView>> = Seq::empty();
        let mut steps: usize = 0;
        proof {
            assert(error_views(this.errors@) =~= flatten_errors(segs));
            assert(done + walk_order(edges, it.queue(), (usize::MAX - steps) as nat) =~= all);
            assert forall|j: int| 0 <= j < it.queue().len() implies edges.has(#[trigger] it.queue()[j]) && gmmt.has(it.queue()[j]) by {
                assert(it.queue() == cell_names(dependency_graph.starts@));
                assert(cell_names(dependency_graph.starts@).contains(it.queue()[j]));
            }
        }
        loop
            invariant
                it.edges() == edges,
                steps <= usize::MAX,
                done + walk_order(edges, it.queue(), (usize::MAX - steps) as nat) == all,
                forall|j: int| 0 <= j < it.queue().len() ==> edges.has(#[trigger] it.queue()[j]) && gmmt.has(it.queue()[j]),
                walk_closed(edges, gmmt),
                edges == dependency_graph.nexts,
                gmmt == grand_module_merge_table.cell_module_merge_tables,
                lasts == dependency_graph.lasts,
                forall|c: Seq<char>, d: Seq<char>| #[trigger] lasts.has(c) && #[trigger] lasts.at(c).has(d)
                    ==> dependency_alias.has(c) && dependency_alias.at(c).has(d),
                forall|c: Seq<char>| #[trigger] cell_tables(&this.cell_module_skeleton_table).dom().contains(c) <==> done.contains(c),
                forall|c: Seq<char>| #[trigger] done.contains(c) ==> {
                    let t = cell_tables(&this.cell_module_skeleton_table)[c];
                    let b = cell_skeleton_table(lasts, dependency_alias, gmmt.at(c), c);
                    &&& t.root == b.root
                    &&& t.module_skeletons == b.module_skeletons
                    &&& t.errors == b.errors
                    &&& signatures_kept(b.def_signatures, t.def_signatures)
                    &&& exists|errs: Seq<NameErrorView>| #[trigger] resolved_from(b, c, t.def_signatures, errs)
                },
                segs.len() == done.len(),
                error_views(this.errors@) == flatten_errors(segs),
                forall|i: int| 0 <= i < done.len() ==> #[trigger] visit_errors(
                    cell_skeleton_table(lasts, dependency_alias, gmmt.at(done[i]), done[i]),
                    done[i],
                    segs[i],
                ),
            ensures
                done == all,
                forall|c: Seq<char>| #[trigger] cell_tables(&this.cell_module_skeleton_table).dom().contains(c) <==> done.contains(c),
                forall|c: Seq<char>| #[trigger] done.contains(c) ==> {
                    let t = cell_tables(&this.cell_module_skeleton_table)[c];
                    let b = cell_skeleton_table(lasts, dependency_alias, gmmt.at(c), c);
                    &&& t.root == b.root
                    &&& t.module_skeletons == b.module_skeletons
                    &&& t.errors == b.errors
                    &&& signatures_kept(b.def_signatures, t.def_signatures)
                    &&& exists|errs: Seq<NameErrorView>| #[trigger] resolved_from(b, c, t.def_signatures, errs)
                },
                segs.len() == done.len(),
                error_views(this.errors@) == flatten_errors(segs),
                forall|i: int| 0 <= i < done.len() ==> #[trigger] visit_errors(
                    cell_skeleton_table(lasts, dependency_alias, gmmt.at(done[i]), done[i]),
                    done[i],
                    segs[i],
                ),
            decreases usize::MAX - steps,
        {
            if steps == usize::MAX {
                proof {
                    assert(walk_order(edges, it.queue(), 0) =~= Seq::<Seq<char>>::empty());
                    assert(done + Seq::<Seq<char>>::empty() =~= done);
                }
                break;
            }
            let ghost q = it.queue();
            let next = it.next();
            match next {
                None => {
                    proof {
                        assert(done + Seq::<Seq<char>>::empty() =~= done);
                    }
                    break;
                },
                Some(sign) => {
                    let ghost c = sign@;
                    proof {
                        assert(q[0] == c);
                        assert(edges.has(c) && gmmt.has(c));
                    }
                    let rrt = build_cell_root_table(&dependency_graph.lasts, &dependency_alias, &sign);
                    let mmt = grand_module_merge_table.cell_module_merge_tables.get(&sign).unwrap();
                    let mskt = ModuleSkeletonTable::new(sign.duplicate(), &rrt, mmt);
                    let ghost m0 = mskt;
                    let ghost e0 = this.errors@;
                    let mut errs = copy_name_errors(&mskt.errors);
                    let ghost ev = errs@;
                    this.errors.append(&mut errs);
                    let ghost before = cell_tables(&this.cell_module_skeleton_table);
                    let ghost n = this.errors@.len();
                    this.module_skeleton_resolution(&sign, mskt);
                    proof {
                        let b = cell_skeleton_table(lasts, dependency_alias, gmmt.at(c), c);
                        assert(m0@ == b);
                        let tc = cell_tables(&this.cell_module_skeleton_table)[c];
                        let rest = error_views(this.errors@.skip(n as int));
                        let seg = error_views(ev) + rest;
                        assert(error_views(ev) =~= b.errors);
                        assert(seg.take(b.errors.len() as int) =~= b.errors);
                        assert(seg.skip(b.errors.len() as int) =~= rest);
                        assert(resolved_from(b, c, tc.def_signatures, rest));
                        assert(visit_errors(b, c, seg));
                        assert(this.errors@ =~= (e0 + ev) + this.errors@.skip(n as int));
                        assert(error_views(this.errors@) =~= error_views(e0) + seg);
                        let segs2 = segs.push(seg);
                        assert(segs2.drop_last() =~= segs);
                        assert(flatten_errors(segs2) == flatten_errors(segs) + seg);
                        assert forall|i: int| 0 <= i < done.len() + 1 implies #[trigger] visit_errors(
                            cell_skeleton_table(lasts, dependency_alias, gmmt.at(done.push(c)[i]), done.push(c)[i]),
                            done.push(c)[i],
                            segs2[i],
                        ) by {
                            if i < done.len() {
                                assert(segs2[i] == segs[i]);
                                assert(done.push(c)[i] == done[i]);
                            }
                        }
                        segs = segs2;
                    }
                    proof {
                        let fuel = (usize::MAX - steps) as nat;
                        let rest = q.drop_first() + edges.at(c).elems();
                        assert(walk_order(edges, q, fuel) == seq![c] + walk_order(edges, rest, (fuel - 1) as nat));
                        assert(it.queue() == rest);
                        assert(done.push(c) + walk_order(edges, rest, (fuel - 1) as nat) =~= done + walk_order(edges, q, fuel));
                        assert forall|j: int| 0 <= j < it.queue().len() implies edges.has(#[trigger] it.queue()[j]) && gmmt.has(it.queue()[j]) by {
                            if j < q.len() - 1 {
                                assert(it.queue()[j] == q[j + 1]);
                            } else {
                                let d = it.queue()[j];
                                assert(d == edges.at(c).elems()[j - (q.len() - 1)]);
                                assert(edges.at(c).has(d));
                            }
                        }
                        assert forall|e: Seq<char>| #[trigger] cell_tables(&this.cell_module_skeleton_table).dom().contains(e) <==> done.push(c).contains(e) by {
                            if e == c {
                                assert(done.push(c)[done.len() as int] == c);
                            } else if done.contains(e) {
                                let k = done.index_of(e);
                                assert(done.push(c)[k] == e);
                            } else if done.push(c).contains(e) {
                                let k = done.push(c).index_of(e);
                                if k < done.len() {
                                    assert(done[k] == e);
                                }
                            }
                        }
                        assert forall|e: Seq<char>| #[trigger] done.push(c).contains(e) implies {
                            let t = cell_tables(&this.cell_module_skeleton_table)[e];
                            let b = cell_skeleton_table(lasts, dependency_alias, gmmt.at(e), e);
                            &&& t.root == b.root
                            &&& t.module_skeletons == b.module_skeletons
                            &&& t.errors == b.errors
                            &&& signatures_kept(b.def_signatures, t.def_signatures)
                            &&& exists|errs: Seq<NameErrorView>| #[trigger] resolved_from(b, e, t.def_signatures, errs)
                        } by {
                            if e == c {
                                let t = cell_tables(&this.cell_module_skeleton_table)[e];
                                let b = cell_skeleton_table(lasts, dependency_alias, gmmt.at(e), e);
                                assert forall|r: RouteView| #[trigger] t.def_signatures.dom().contains(r) implies b.def_signatures.dom().contains(r)
                                    && kept_form(b.def_signatures[r], t.def_signatures[r]) by {
                                    lemma_kept_form(before, c, b.def_signatures, b.def_signatures[r], t.def_signatures[r]);
                                }
                            }
                            if e != c {
                                let k = done.push(c).index_of(e);
                                assert(done[k] == e);
                                assert(done.contains(e));
                            }
                        }
                    }
                    proof {
                        done = done.push(c);
                    }
                    steps = steps + 1;
                },
            }
        }
        this
    }
}

} // verus!
