use vstd::prelude::*;
use crate::ast::{BindDef, Coerce, DefinitionStmt, DefinitionStmts, Module, OperationDef, OperatorOverload, Program, ShapeDef, Use};
use crate::keyed::KeyedMap;
use crate::merge_errors::{MergeErrorView, ModuleMergeError, ModuleMergeErrorKind, ModuleMergeErrors};
use crate::parsed::{ParsedBox, ParsedPosition, PositionView};
use crate::route::{CanonicalRoute, Route, RouteView};
use crate::cell::CellSignature;

verus! {

/// The definitions of one module, gathered from every block that opens it.
#[derive(Debug)]
pub struct MergedModule {
    pub module_def_names: KeyedMap<String, ParsedBox<bool>>,
    pub shape_def_stmts: KeyedMap<String, ParsedBox<ShapeDef>>,
    pub operation_def_stmts: KeyedMap<String, ParsedBox<OperationDef>>,
    pub bind_def_stmts: KeyedMap<String, ParsedBox<BindDef>>,
    pub coerce_stmts: Vec<ParsedBox<Coerce>>,
    pub operator_stmts: Vec<ParsedBox<OperatorOverload>>,
    pub use_stmts: Vec<(String, ParsedBox<Use>)>,
    pub errors: ModuleMergeErrors,
}

/// The abstract value of a merged module: its submodules (with whether
/// each is exported and where), its named definitions (each table with the
/// order in which its names were first stored), its unnamed statements,
/// its `use` statements by name in order, and its errors.
pub struct MergedView {
    pub modules: Map<Seq<char>, (bool, PositionView)>,
    pub module_order: Seq<Seq<char>>,
    pub shapes: Map<Seq<char>, ParsedBox<ShapeDef>>,
    pub shape_order: Seq<Seq<char>>,
    pub operations: Map<Seq<char>, ParsedBox<OperationDef>>,
    pub operation_order: Seq<Seq<char>>,
    pub binds: Map<Seq<char>, ParsedBox<BindDef>>,
    pub bind_order: Seq<Seq<char>>,
    pub coerces: Seq<ParsedBox<Coerce>>,
    pub operators: Seq<ParsedBox<OperatorOverload>>,
    pub uses: Seq<(Seq<char>, ParsedBox<Use>)>,
    pub errors: Seq<MergeErrorView>,
}

/// The submodule entries of a merged module.
pub open spec fn module_entries(m: &KeyedMap<String, ParsedBox<bool>>) -> Map<Seq<char>, (bool, PositionView)> {
    Map::new(|k: Seq<char>| m.has(k), |k: Seq<char>| (m.at(k).value, m.at(k).position@))
}

impl View for MergedModule {
    type V = MergedView;

    open spec fn view(&self) -> MergedView {
        MergedView {
            modules: module_entries(&self.module_def_names),
            module_order: self.module_def_names.keys(),
            shapes: self.shape_def_stmts.as_map(),
            shape_order: self.shape_def_stmts.keys(),
            operations: self.operation_def_stmts.as_map(),
            operation_order: self.operation_def_stmts.keys(),
            binds: self.bind_def_stmts.as_map(),
            bind_order: self.bind_def_stmts.keys(),
            coerces: self.coerce_stmts@,
            operators: self.operator_stmts@,
            uses: self.use_stmts@.map_values(|u: (String, ParsedBox<Use>)| (u.0@, u.1)),
            errors: self.errors@.map_values(|e: ModuleMergeError| e@),
        }
    }
}

impl MergedView {
    /// A module with nothing in it.
    pub open spec fn empty() -> MergedView {
        MergedView {
            modules: Map::empty(),
            module_order: Seq::empty(),
            shapes: Map::empty(),
            shape_order: Seq::empty(),
            operations: Map::empty(),
            operation_order: Seq::empty(),
            binds: Map::empty(),
            bind_order: Seq::empty(),
            coerces: Seq::empty(),
            operators: Seq::empty(),
            uses: Seq::empty(),
            errors: Seq::empty(),
        }
    }

    /// Whether `name` is taken by a `use` statement.
    pub open spec fn has_use(self, name: Seq<char>) -> bool {
        exists|i: int| 0 <= i < self.uses.len() && #[trigger] self.uses[i].0 == name
    }

    /// Whether `name` is defined by anything but a submodule.
    pub open spec fn has_non_module_name(self, name: Seq<char>) -> bool {
        ||| self.shapes.dom().contains(name)
        ||| self.operations.dom().contains(name)
        ||| self.binds.dom().contains(name)
        ||| self.has_use(name)
    }

    /// Whether `name` is defined in the module.
    pub open spec fn has_name(self, name: Seq<char>) -> bool {
        self.modules.dom().contains(name) || self.has_non_module_name(name)
    }

    /// The module with a conflict on `name` recorded.
    pub open spec fn conflict(self, name: Seq<char>, route: RouteView, pos: PositionView) -> MergedView {
        MergedView { errors: self.errors.push((ModuleMergeErrorKind::ModuleMergeConflict, name, route, pos)), ..self }
    }
}

/// The order of a table's names after `k` is stored: a new name goes last.
pub open spec fn put_order<V>(order: Seq<Seq<char>>, m: Map<Seq<char>, V>, k: Seq<char>) -> Seq<Seq<char>> {
    if m.dom().contains(k) {
        order
    } else {
        order.push(k)
    }
}

/// A definition that has a name and a position for that name.
pub trait NamePositionGettable {
    /// The name the definition defines.
    spec fn name_of(&self) -> Seq<char>;

    /// Where that name is written.
    spec fn name_position_of(&self) -> PositionView;

    fn get_name(&self) -> (res: String)
        ensures
            res@ == self.name_of(),
    ;

    fn get_name_position(&self) -> (res: ParsedPosition)
        ensures
            res@ == self.name_position_of(),
    ;
}

impl NamePositionGettable for ParsedBox<Module> {
    open spec fn name_of(&self) -> Seq<char> {
        self.value.module_name.value.name@
    }

    open spec fn name_position_of(&self) -> PositionView {
        self.value.module_name.position@
    }

    fn get_name(&self) -> (res: String) {
        self.value.module_name.value.get_name()
    }

    fn get_name_position(&self) -> (res: ParsedPosition) {
        self.value.module_name.position.duplicate()
    }
}

impl NamePositionGettable for ParsedBox<ShapeDef> {
    open spec fn name_of(&self) -> Seq<char> {
        self.value.signature.value.id.value.name@
    }

    open spec fn name_position_of(&self) -> PositionView {
        self.value.signature.value.id.position@
    }

    fn get_name(&self) -> (res: String) {
        self.value.signature.value.id.value.get_name()
    }

    fn get_name_position(&self) -> (res: ParsedPosition) {
        self.value.signature.value.id.position.duplicate()
    }
}

impl NamePositionGettable for ParsedBox<OperationDef> {
    open spec fn name_of(&self) -> Seq<char> {
        self.value.name.value.name@
    }

    open spec fn name_position_of(&self) -> PositionView {
        self.value.name.position@
    }

    fn get_name(&self) -> (res: String) {
        self.value.name.value.get_name()
    }

    fn get_name_position(&self) -> (res: ParsedPosition) {
        self.value.name.position.duplicate()
    }
}

impl NamePositionGettable for ParsedBox<BindDef> {
    open spec fn name_of(&self) -> Seq<char> {
        self.value.name.value.name@
    }

    open spec fn name_position_of(&self) -> PositionView {
        self.value.name.position@
    }

    fn get_name(&self) -> (res: String) {
        self.value.name.value.get_name()
    }

    fn get_name_position(&self) -> (res: ParsedPosition) {
        self.value.name.position.duplicate()
    }
}

impl NamePositionGettable for ParsedBox<Use> {
    open spec fn name_of(&self) -> Seq<char> {
        self.value.defined_name()
    }

    open spec fn name_position_of(&self) -> PositionView {
        match self.value.name {
            Some(pb_id) => pb_id.position@,
            None => self.value.routed_name.value.this_id.position@,
        }
    }

    fn get_name(&self) -> (res: String) {
        match &self.value.name {
            Some(pb_id) => pb_id.value.get_name(),
            None => self.value.routed_name.value.this_id.value.get_name(),
        }
    }

    fn get_name_position(&self) -> (res: ParsedPosition) {
        match &self.value.name {
            Some(pb_id) => pb_id.position.duplicate(),
            None => self.value.routed_name.value.this_id.position.duplicate(),
        }
    }
}


/// `v` after the submodule `pb` is met while a module block is read: a
/// conflict if its name is taken by a definition other than a submodule,
/// and otherwise its entry (a later block of the same name replaces an
/// earlier one).
pub open spec fn absorb_submodule(v: MergedView, route: RouteView, pb: ParsedBox<Module>) -> MergedView {
    let name = pb.name_of();
    if v.has_non_module_name(name) {
        v.conflict(name, route, pb.name_position_of())
    } else {
        MergedView {
            modules: v.modules.insert(name, (pb.value.is_export, pb.position@)),
            module_order: put_order(v.module_order, v.modules, name),
            ..v
        }
    }
}

/// `v` after the statement `stmt` (other than a submodule) is met while a
/// module block is read: a named definition is added unless its name is
/// already taken, in which case a conflict is recorded; coerce and operator
/// statements are appended; an empty statement changes nothing.
pub open spec fn absorb_definition(v: MergedView, route: RouteView, stmt: DefinitionStmt) -> MergedView {
    match stmt {
        DefinitionStmt::Empty => v,
        DefinitionStmt::SubModule(_) => v,
        DefinitionStmt::Shape(pb) => if v.has_name(pb.name_of()) {
            v.conflict(pb.name_of(), route, pb.name_position_of())
        } else {
            put_shape(v, pb.name_of(), pb)
        },
        DefinitionStmt::Operation(pb) => if v.has_name(pb.name_of()) {
            v.conflict(pb.name_of(), route, pb.name_position_of())
        } else {
            put_operation(v, pb.name_of(), pb)
        },
        DefinitionStmt::BindDef(pb) => if v.has_name(pb.name_of()) {
            v.conflict(pb.name_of(), route, pb.name_position_of())
        } else {
            put_bind(v, pb.name_of(), pb)
        },
        DefinitionStmt::Coerce(pb) => MergedView { coerces: v.coerces.push(pb), ..v },
        DefinitionStmt::Operator(pb) => MergedView { operators: v.operators.push(pb), ..v },
        DefinitionStmt::Use(pb) => if v.has_name(pb.name_of()) {
            v.conflict(pb.name_of(), route, pb.name_position_of())
        } else {
            MergedView { uses: v.uses.push((pb.name_of(), pb)), ..v }
        },
    }
}

/// The submodule blocks among `stmts`, in order.
pub open spec fn submodules_of(stmts: Seq<ParsedBox<DefinitionStmt>>) -> Seq<ParsedBox<Module>>
    decreases stmts.len(),
{
    if stmts.len() == 0 {
        Seq::empty()
    } else {
        let rest = submodules_of(stmts.drop_last());
        match stmts.last().value {
            DefinitionStmt::SubModule(m) => rest.push(m),
            _ => rest,
        }
    }
}

/// The statements among `stmts` that are not submodule blocks, in order.
pub open spec fn non_submodules_of(stmts: Seq<ParsedBox<DefinitionStmt>>) -> Seq<DefinitionStmt>
    decreases stmts.len(),
{
    if stmts.len() == 0 {
        Seq::empty()
    } else {
        let rest = non_submodules_of(stmts.drop_last());
        match stmts.last().value {
            DefinitionStmt::SubModule(_) => rest,
            s => rest.push(s),
        }
    }
}

/// `v` after the submodules `subs` are met in order.
pub open spec fn absorb_submodules(v: MergedView, route: RouteView, subs: Seq<ParsedBox<Module>>) -> MergedView
    decreases subs.len(),
{
    if subs.len() == 0 {
        v
    } else {
        absorb_submodule(absorb_submodules(v, route, subs.drop_last()), route, subs.last())
    }
}

/// `v` after the statements `stmts` are met in order.
pub open spec fn absorb_definitions(v: MergedView, route: RouteView, stmts: Seq<DefinitionStmt>) -> MergedView
    decreases stmts.len(),
{
    if stmts.len() == 0 {
        v
    } else {
        absorb_definition(absorb_definitions(v, route, stmts.drop_last()), route, stmts.last())
    }
}

/// The module a block with statements `stmts` makes on its own: its
/// submodules are taken first, then the other statements, each in order.
pub open spec fn merged_from(route: RouteView, stmts: Seq<ParsedBox<DefinitionStmt>>) -> MergedView {
    absorb_definitions(
        absorb_submodules(MergedView::empty(), route, submodules_of(stmts)),
        route,
        non_submodules_of(stmts),
    )
}

/// The submodule entries after one more is stored.
proof fn lemma_module_entries_insert(
    old_m: KeyedMap<String, ParsedBox<bool>>,
    new_m: KeyedMap<String, ParsedBox<bool>>,
    k: Seq<char>,
    v: ParsedBox<bool>,
)
    requires
        new_m.as_map() == old_m.as_map().insert(k, v),
    ensures
        module_entries(&new_m) == module_entries(&old_m).insert(k, (v.value, v.position@)),
{
    assert forall|x: Seq<char>| #[trigger] new_m.has(x) == (old_m.has(x) || x == k) by {
        assert(new_m.as_map().dom().contains(x) == new_m.has(x));
        assert(old_m.as_map().dom().contains(x) == old_m.has(x));
    }
    assert forall|x: Seq<char>| new_m.has(x) implies #[trigger] new_m.at(x) == if x == k { v } else { old_m.at(x) } by {
        assert(new_m.as_map()[x] == new_m.at(x));
        if x != k {
            assert(old_m.as_map()[x] == old_m.at(x));
        }
    }
    assert(module_entries(&new_m) =~= module_entries(&old_m).insert(k, (v.value, v.position@)));
}

/// A map's entries after one more is stored.
proof fn lemma_as_map_dom<V>(m: KeyedMap<String, V>, k: Seq<char>)
    ensures
        m.as_map().dom().contains(k) == m.has(k),
        m.has(k) ==> m.as_map()[k] == m.at(k),
{
}

impl MergedModule {
    /// A module with nothing in it.
    pub fn new_empty() -> (res: Self)
        ensures
            res@ == MergedView::empty(),
    {
        let r = Self {
            module_def_names: KeyedMap::new(),
            shape_def_stmts: KeyedMap::new(),
            operation_def_stmts: KeyedMap::new(),
            bind_def_stmts: KeyedMap::new(),
            coerce_stmts: Vec::new(),
            operator_stmts: Vec::new(),
            use_stmts: Vec::new(),
            errors: Vec::new(),
        };
        proof {
            assert(module_entries(&r.module_def_names) =~= Map::empty());
            assert(r.shape_def_stmts.as_map() =~= Map::empty());
            assert(r.operation_def_stmts.as_map() =~= Map::empty());
            assert(r.bind_def_stmts.as_map() =~= Map::empty());
            assert(r@.uses =~= Seq::empty());
            assert(r@.errors =~= Seq::empty());
        }
        r
    }

    /// Records the error `gen_error` makes of the name and name position of
    /// `pb_module` under `module_route`.
    pub fn push_error_by_pb<T, F>(&mut self, module_route: Route, pb_module: &T, gen_error: F)
        where
            T: NamePositionGettable,
            F: FnOnce(String, Route, ParsedPosition) -> ModuleMergeError,
        requires
            forall|n: String, r: Route, p: ParsedPosition| call_requires(gen_error, (n, r, p)),
        ensures
            exists|n: String, p: ParsedPosition, e: ModuleMergeError|
                n@ == pb_module.name_of() && p@ == pb_module.name_position_of()
                && call_ensures(gen_error, (n, module_route, p), e)
                && final(self).errors@ == old(self).errors@.push(e),
            final(self).module_def_names == old(self).module_def_names,
            final(self).shape_def_stmts == old(self).shape_def_stmts,
            final(self).operation_def_stmts == old(self).operation_def_stmts,
            final(self).bind_def_stmts == old(self).bind_def_stmts,
            final(self).coerce_stmts == old(self).coerce_stmts,
            final(self).operator_stmts == old(self).operator_stmts,
            final(self).use_stmts == old(self).use_stmts,
    {
        let n = pb_module.get_name();
        let p = pb_module.get_name_position();
        let e = gen_error(n, module_route, p);
        self.errors.push(e);
    }

    /// Records the error `gen_error` makes of `name`, `module_route` and
    /// `position`.
    pub fn push_error_by_name_route_pos<F>(&mut self, name: String, module_route: Route, position: ParsedPosition, gen_error: F)
        where
            F: FnOnce(String, Route, ParsedPosition) -> ModuleMergeError,
        requires
            call_requires(gen_error, (name, module_route, position)),
        ensures
            exists|e: ModuleMergeError| call_ensures(gen_error, (name, module_route, position), e)
                && final(self).errors@ == old(self).errors@.push(e),
            final(self).module_def_names == old(self).module_def_names,
            final(self).shape_def_stmts == old(self).shape_def_stmts,
            final(self).operation_def_stmts == old(self).operation_def_stmts,
            final(self).bind_def_stmts == old(self).bind_def_stmts,
            final(self).coerce_stmts == old(self).coerce_stmts,
            final(self).operator_stmts == old(self).operator_stmts,
            final(self).use_stmts == old(self).use_stmts,
    {
        let e = gen_error(name, module_route, position);
        self.errors.push(e);
    }

    /// Whether `name` is taken by a `use` statement.
    fn contain_use_name(&self, name: &String) -> (res: bool)
        ensures
            res == self@.has_use(name@),
    {
        let mut i: usize = 0;
        while i < self.use_stmts.len()
            invariant
                i <= self.use_stmts@.len(),
                forall|j: int| 0 <= j < i ==> self.use_stmts@[j].0@ != name@,
            decreases self.use_stmts.len() - i,
        {
            if self.use_stmts[i].0 == *name {
                proof {
                    assert(self@.uses[i as int].0 == name@);
                }
                return true;
            }
            i = i + 1;
        }
        false
    }

    /// Whether `name` is defined in the module.
    pub fn contain_name(&self, name: &String) -> (res: bool)
        ensures
            res == self@.has_name(name@),
    {
        proof {
            lemma_as_map_dom(self.shape_def_stmts, name@);
            lemma_as_map_dom(self.operation_def_stmts, name@);
            lemma_as_map_dom(self.bind_def_stmts, name@);
        }
        self.module_def_names.contains_key(name) || self.shape_def_stmts.contains_key(name)
            || self.operation_def_stmts.contains_key(name) || self.bind_def_stmts.contains_key(name)
            || self.contain_use_name(name)
    }

    /// Whether `name` is defined by anything but a submodule.
    pub fn contain_non_module_name(&self, name: &String) -> (res: bool)
        ensures
            res == self@.has_non_module_name(name@),
    {
        proof {
            lemma_as_map_dom(self.shape_def_stmts, name@);
            lemma_as_map_dom(self.operation_def_stmts, name@);
            lemma_as_map_dom(self.bind_def_stmts, name@);
        }
        self.shape_def_stmts.contains_key(name) || self.operation_def_stmts.contains_key(name)
            || self.bind_def_stmts.contains_key(name) || self.contain_use_name(name)
    }
}


impl MergedModule {
    /// Records a conflict on the name of `pb` under `route`.
    fn conflict_by_pb<T: NamePositionGettable>(&mut self, route: &Route, pb: &T)
        ensures
            final(self)@ == old(self)@.conflict(pb.name_of(), route@, pb.name_position_of()),
    {
        let r = route.duplicate();
        self.push_error_by_pb(r, pb, ModuleMergeError::module_merge_conflict);
        proof {
            assert(self@.errors =~= old(self)@.errors.push(
                (ModuleMergeErrorKind::ModuleMergeConflict, pb.name_of(), route@, pb.name_position_of()),
            ));
            assert(module_entries(&self.module_def_names) == module_entries(&old(self).module_def_names));
            assert(self@.uses =~= old(self)@.uses);
        }
    }

    /// Takes in one submodule block, as `absorb_submodule` says.
    fn absorb_submodule_exec(&mut self, route: &Route, sub_mod: &ParsedBox<Module>)
        ensures
            final(self)@ == absorb_submodule(old(self)@, route@, *sub_mod),
    {
        let name = sub_mod.get_name();
        if self.contain_non_module_name(&name) {
            self.conflict_by_pb(route, sub_mod);
        } else {
            let ghost om = self.module_def_names;
            let entry = ParsedBox { value: sub_mod.value.is_export, position: sub_mod.position.duplicate() };
            let ghost ev = entry;
            let ghost nv = name@;
            self.module_def_names.insert(name, entry);
            proof {
                lemma_module_entries_insert(om, self.module_def_names, nv, ev);
                assert(self@.uses =~= old(self)@.uses);
                assert(self@.errors =~= old(self)@.errors);
            }
        }
    }

    /// Takes in one statement that is not a submodule block, as
    /// `absorb_definition` says.
    fn absorb_definition_exec(&mut self, route: &Route, stmt: DefinitionStmt)
        ensures
            final(self)@ == absorb_definition(old(self)@, route@, stmt),
    {
        let ghost st = stmt;
        match stmt {
            DefinitionStmt::Empty => {},
            DefinitionStmt::SubModule(_) => {},
            DefinitionStmt::Shape(shape_def) => {
                let name = shape_def.get_name();
                if self.contain_name(&name) {
                    self.conflict_by_pb(route, &shape_def);
                } else {
                    let ghost pb = shape_def;
                    self.shape_def_stmts.insert(name, shape_def);
                    proof {
                        assert(self@.uses =~= old(self)@.uses);
                        assert(self@.errors =~= old(self)@.errors);
                        assert(self@ == absorb_definition(old(self)@, route@, st));
                    }
                }
            },
            DefinitionStmt::Operation(operation_def) => {
                let name = operation_def.get_name();
                if self.contain_name(&name) {
                    self.conflict_by_pb(route, &operation_def);
                } else {
                    self.operation_def_stmts.insert(name, operation_def);
                    proof {
                        assert(self@.uses =~= old(self)@.uses);
                        assert(self@.errors =~= old(self)@.errors);
                    }
                }
            },
            DefinitionStmt::BindDef(bind_def) => {
                let name = bind_def.get_name();
                if self.contain_name(&name) {
                    self.conflict_by_pb(route, &bind_def);
                } else {
                    self.bind_def_stmts.insert(name, bind_def);
                    proof {
                        assert(self@.uses =~= old(self)@.uses);
                        assert(self@.errors =~= old(self)@.errors);
                    }
                }
            },
            DefinitionStmt::Coerce(coerce) => {
                self.coerce_stmts.push(coerce);
                proof {
                    assert(self@.uses =~= old(self)@.uses);
                    assert(self@.errors =~= old(self)@.errors);
                }
            },
            DefinitionStmt::Operator(operator) => {
                self.operator_stmts.push(operator);
                proof {
                    assert(self@.uses =~= old(self)@.uses);
                    assert(self@.errors =~= old(self)@.errors);
                }
            },
            DefinitionStmt::Use(use_def) => {
                let name = use_def.get_name();
                if self.contain_name(&name) {
                    self.conflict_by_pb(route, &use_def);
                } else {
                    let ghost nv = name@;
                    let ghost pb = use_def;
                    self.use_stmts.push((name, use_def));
                    proof {
                        assert(self@.uses =~= old(self)@.uses.push((nv, pb)));
                        assert(self@.errors =~= old(self)@.errors);
                    }
                }
            },
        }
    }

    /// The module that one block with statements `module_stmts` makes, and
    /// the submodule blocks among them in order.  Submodules are taken in
    /// first, so that a later name that clashes with one is reported; two
    /// blocks of one submodule are not a conflict.
    pub fn new(route: Route, module_stmts: DefinitionStmts) -> (res: (Self, Vec<ParsedBox<Module>>))
        ensures
            res.0@ == merged_from(route@, module_stmts.0@),
            res.1@ == submodules_of(module_stmts.0@),
    {
        let mut this = Self::new_empty();
        let ghost all = module_stmts.0@;
        let mut stmts = module_stmts.0;
        let mut subs: Vec<ParsedBox<Module>> = Vec::new();
        let mut others: Vec<DefinitionStmt> = Vec::new();
        let mut k: usize = 0;
        let n: usize = stmts.len();
        while stmts.len() > 0
            invariant
                n == all.len(),
                stmts@ == all.skip(k as int),
                k <= all.len(),
                subs@ == submodules_of(all.take(k as int)),
                others@ == non_submodules_of(all.take(k as int)),
            decreases stmts.len(),
        {
            let stmt = stmts.remove(0);
            proof {
                assert(all.take(k + 1).drop_last() =~= all.take(k as int));
                assert(all.take(k + 1).last() == all[k as int]);
                assert(stmts@ =~= all.skip(k + 1));
            }
            match stmt.value {
                DefinitionStmt::SubModule(sub_mod) => {
                    subs.push(sub_mod);
                },
                other => {
                    others.push(other);
                },
            }
            k = k + 1;
        }
        proof {
            assert(all.take(k as int) =~= all);
        }
        let mut i: usize = 0;
        while i < subs.len()
            invariant
                i <= subs@.len(),
                this@ == absorb_submodules(MergedView::empty(), route@, subs@.take(i as int)),
            decreases subs.len() - i,
        {
            this.absorb_submodule_exec(&route, &subs[i]);
            proof {
                assert(subs@.take(i + 1).drop_last() =~= subs@.take(i as int));
            }
            i = i + 1;
        }
        proof {
            assert(subs@.take(i as int) =~= subs@);
        }
        let ghost after_subs = this@;
        let ghost all_others = others@;
        let mut j: usize = 0;
        let m: usize = others.len();
        while others.len() > 0
            invariant
                m == all_others.len(),
                others@ == all_others.skip(j as int),
                j <= all_others.len(),
                this@ == absorb_definitions(after_subs, route@, all_others.take(j as int)),
            decreases others.len(),
        {
            let stmt = others.remove(0);
            this.absorb_definition_exec(&route, stmt);
            proof {
                assert(all_others.take(j + 1).drop_last() =~= all_others.take(j as int));
                assert(others@ =~= all_others.skip(j + 1));
            }
            j = j + 1;
        }
        proof {
            assert(all_others.take(j as int) =~= all_others);
        }
        (this, subs)
    }
}


/// `v` after the submodule entry `name` of another block of the module is
/// merged in: a conflict if the name is taken by a definition other than a
/// submodule; otherwise the entry is stored with the incoming position and
/// is exported where either block exports it.
pub open spec fn merge_module_entry(v: MergedView, route: RouteView, name: Seq<char>, entry: (bool, PositionView)) -> MergedView {
    if v.has_non_module_name(name) {
        v.conflict(name, route, entry.1)
    } else if !v.modules.dom().contains(name) {
        MergedView {
            modules: v.modules.insert(name, entry),
            module_order: v.module_order.push(name),
            ..v
        }
    } else {
        MergedView { modules: v.modules.insert(name, (v.modules[name].0 || entry.0, entry.1)), ..v }
    }
}

/// `v` after the submodule entries `keys`/`vals` are merged in order.
pub open spec fn merge_module_entries(v: MergedView, route: RouteView, keys: Seq<Seq<char>>, vals: Seq<(bool, PositionView)>) -> MergedView
    decreases keys.len(),
{
    if keys.len() == 0 || vals.len() == 0 {
        v
    } else {
        merge_module_entry(
            merge_module_entries(v, route, keys.drop_last(), vals.drop_last()),
            route,
            keys.last(),
            vals.last(),
        )
    }
}

/// `v` after the named definitions `keys`/`vals` of another block are
/// merged in order: each is stored by `put` unless its key is taken, in
/// which case a conflict on the definition's own name is recorded.
pub open spec fn merge_named_entries<T>(
    v: MergedView,
    route: RouteView,
    keys: Seq<Seq<char>>,
    vals: Seq<ParsedBox<T>>,
    put: spec_fn(MergedView, Seq<char>, ParsedBox<T>) -> MergedView,
) -> MergedView where ParsedBox<T>: NamePositionGettable
    decreases keys.len(),
{
    if keys.len() == 0 || vals.len() == 0 {
        v
    } else {
        let w = merge_named_entries(v, route, keys.drop_last(), vals.drop_last(), put);
        if w.has_name(keys.last()) {
            w.conflict(vals.last().name_of(), route, vals.last().name_position_of())
        } else {
            put(w, keys.last(), vals.last())
        }
    }
}

/// `v` after the `use` statements `uses` of another block are merged in
/// order.
pub open spec fn merge_use_entries(v: MergedView, route: RouteView, uses: Seq<(Seq<char>, ParsedBox<Use>)>) -> MergedView
    decreases uses.len(),
{
    if uses.len() == 0 {
        v
    } else {
        let w = merge_use_entries(v, route, uses.drop_last());
        let (name, pb) = uses.last();
        if w.has_name(name) {
            w.conflict(pb.name_of(), route, pb.name_position_of())
        } else {
            MergedView { uses: w.uses.push((name, pb)), ..w }
        }
    }
}

/// Stores a shape definition.
pub open spec fn put_shape(w: MergedView, k: Seq<char>, pb: ParsedBox<ShapeDef>) -> MergedView {
    MergedView { shapes: w.shapes.insert(k, pb), shape_order: put_order(w.shape_order, w.shapes, k), ..w }
}

/// Stores an operation definition.
pub open spec fn put_operation(w: MergedView, k: Seq<char>, pb: ParsedBox<OperationDef>) -> MergedView {
    MergedView {
        operations: w.operations.insert(k, pb),
        operation_order: put_order(w.operation_order, w.operations, k),
        ..w
    }
}

/// Stores a bind definition.
pub open spec fn put_bind(w: MergedView, k: Seq<char>, pb: ParsedBox<BindDef>) -> MergedView {
    MergedView { binds: w.binds.insert(k, pb), bind_order: put_order(w.bind_order, w.binds, k), ..w }
}

/// The module `v` with the block `other` merged into it under `route`:
/// submodules, then shapes, operations and binds (each in the stored order
/// of `other`), then the unnamed statements, then the `use` statements.
pub open spec fn merged_with(v: MergedView, route: RouteView, other: MergedView) -> MergedView {
    let v1 = merge_module_entries(v, route, other.module_order,
        other.module_order.map_values(|k: Seq<char>| other.modules[k]));
    let v2 = merge_named_entries(v1, route, other.shape_order,
        other.shape_order.map_values(|k: Seq<char>| other.shapes[k]),
        |w: MergedView, k: Seq<char>, pb: ParsedBox<ShapeDef>| put_shape(w, k, pb));
    let v3 = merge_named_entries(v2, route, other.operation_order,
        other.operation_order.map_values(|k: Seq<char>| other.operations[k]),
        |w: MergedView, k: Seq<char>, pb: ParsedBox<OperationDef>| put_operation(w, k, pb));
    let v4 = merge_named_entries(v3, route, other.bind_order,
        other.bind_order.map_values(|k: Seq<char>| other.binds[k]),
        |w: MergedView, k: Seq<char>, pb: ParsedBox<BindDef>| put_bind(w, k, pb));
    let v5 = MergedView { coerces: v4.coerces + other.coerces, operators: v4.operators + other.operators, ..v4 };
    merge_use_entries(v5, route, other.uses)
}

impl MergedModule {
    /// Merges in one submodule entry, as `merge_module_entry` says.
    fn merge_module_entry_exec(&mut self, route: &Route, name: String, pb_is_export: ParsedBox<bool>)
        ensures
            final(self)@ == merge_module_entry(old(self)@, route@, name@, (pb_is_export.value, pb_is_export.position@)),
    {
        let ghost nv = name@;
        let ghost pv = pb_is_export;
        if self.contain_non_module_name(&name) {
            let pos = pb_is_export.position.duplicate();
            let r = route.duplicate();
            self.push_error_by_name_route_pos(name, r, pos, ModuleMergeError::module_merge_conflict);
            proof {
                assert(self@.errors =~= old(self)@.errors.push(
                    (ModuleMergeErrorKind::ModuleMergeConflict, nv, route@, pv.position@),
                ));
                assert(self@.uses =~= old(self)@.uses);
            }
        } else {
            let ghost om = self.module_def_names;
            if !self.module_def_names.contains_key(&name) {
                self.module_def_names.insert(name, pb_is_export);
                proof {
                    lemma_module_entries_insert(om, self.module_def_names, nv, pv);
                }
            } else {
                let original_is_export = *self.module_def_names.get(&name).unwrap().value();
                let entry = ParsedBox { value: original_is_export || pb_is_export.value, position: pb_is_export.position };
                let ghost ev = entry;
                self.module_def_names.insert(name, entry);
                proof {
                    lemma_module_entries_insert(om, self.module_def_names, nv, ev);
                }
            }
            proof {
                assert(self@.uses =~= old(self)@.uses);
                assert(self@.errors =~= old(self)@.errors);
            }
        }
    }

    /// Merges the block `other` of the same module into this one under
    /// `route`, as `merged_with` says: names already taken are reported as
    /// conflicts, submodule entries are combined.
    pub fn merge(&mut self, route: Route, other: Self)
        ensures
            final(self)@ == merged_with(old(self)@, route@, other@),
    {
        let ghost og = other@;
        proof {
            use_type_invariant(&other.module_def_names);
            use_type_invariant(&other.shape_def_stmts);
            use_type_invariant(&other.operation_def_stmts);
            use_type_invariant(&other.bind_def_stmts);
            other.module_def_names.lemma_lengths();
            other.shape_def_stmts.lemma_lengths();
            other.operation_def_stmts.lemma_lengths();
            other.bind_def_stmts.lemma_lengths();
            assert forall|x: int| 0 <= x < other.module_def_names.size() implies
                #[trigger] og.modules[other.module_def_names.keys()[x]]
                == (other.module_def_names.values()[x].value, other.module_def_names.values()[x].position@) by {
                other.module_def_names.lemma_entry(x);
            }
            assert forall|x: int| 0 <= x < other.shape_def_stmts.size() implies
                #[trigger] og.shapes[other.shape_def_stmts.keys()[x]] == other.shape_def_stmts.values()[x] by {
                other.shape_def_stmts.lemma_entry(x);
            }
            assert forall|x: int| 0 <= x < other.operation_def_stmts.size() implies
                #[trigger] og.operations[other.operation_def_stmts.keys()[x]] == other.operation_def_stmts.values()[x] by {
                other.operation_def_stmts.lemma_entry(x);
            }
            assert forall|x: int| 0 <= x < other.bind_def_stmts.size() implies
                #[trigger] og.binds[other.bind_def_stmts.keys()[x]] == other.bind_def_stmts.values()[x] by {
                other.bind_def_stmts.lemma_entry(x);
            }
        }
        let MergedModule {
            module_def_names,
            shape_def_stmts,
            operation_def_stmts,
            bind_def_stmts,
            coerce_stmts,
            operator_stmts,
            use_stmts,
            errors: _,
        } = other;
        // submodules
        let ghost mk = og.module_order;
        let ghost mvs = mk.map_values(|k: Seq<char>| og.modules[k]);
        let mut entries = module_def_names.into_entries();
        let ghost start = self@;
        let ghost all = entries@;
        let n: usize = entries.len();
        let mut i: usize = 0;
        while entries.len() > 0
            invariant
                n == all.len(),
                all.len() == mk.len(),
                mk.len() == mvs.len(),
                forall|x: int| 0 <= x < all.len() ==> (#[trigger] all[x]).0@ == mk[x]
                    && (all[x].1.value, all[x].1.position@) == mvs[x],
                i <= all.len(),
                entries@ == all.skip(i as int),
                self@ == merge_module_entries(start, route@, mk.take(i as int), mvs.take(i as int)),
            decreases entries.len(),
        {
            let (name, pb) = entries.remove(0);
            proof {
                assert(all[i as int] == (name, pb));
                assert(mk.take(i + 1).drop_last() =~= mk.take(i as int));
                assert(mvs.take(i + 1).drop_last() =~= mvs.take(i as int));
                assert(entries@ =~= all.skip(i + 1));
            }
            self.merge_module_entry_exec(&route, name, pb);
            i = i + 1;
        }
        proof {
            assert(mk.take(i as int) =~= mk);
            assert(mvs.take(i as int) =~= mvs);
        }
        // shapes
        let ghost v1 = self@;
        let ghost sk = og.shape_order;
        let ghost svs = sk.map_values(|k: Seq<char>| og.shapes[k]);
        let mut entries = shape_def_stmts.into_entries();
        let ghost all = entries@;
        let n: usize = entries.len();
        let mut i: usize = 0;
        while entries.len() > 0
            invariant
                n == all.len(),
                all.len() == sk.len(),
                sk.len() == svs.len(),
                forall|x: int| 0 <= x < all.len() ==> (#[trigger] all[x]).0@ == sk[x] && all[x].1 == svs[x],
                i <= all.len(),
                entries@ == all.skip(i as int),
                self@ == merge_named_entries(v1, route@, sk.take(i as int), svs.take(i as int),
                    |w: MergedView, k: Seq<char>, pb: ParsedBox<ShapeDef>| put_shape(w, k, pb)),
            decreases entries.len(),
        {
            let (name, shape_def) = entries.remove(0);
            proof {
                assert(all[i as int] == (name, shape_def));
                assert(sk.take(i + 1).drop_last() =~= sk.take(i as int));
                assert(svs.take(i + 1).drop_last() =~= svs.take(i as int));
                assert(entries@ =~= all.skip(i + 1));
            }
            if self.contain_name(&name) {
                self.conflict_by_pb(&route, &shape_def);
            } else {
                let ghost before = self@;
                self.shape_def_stmts.insert(name, shape_def);
                proof {
                    assert(self@.uses =~= before.uses);
                    assert(self@.errors =~= before.errors);
                }
            }
            i = i + 1;
        }
        proof {
            assert(sk.take(i as int) =~= sk);
            assert(svs.take(i as int) =~= svs);
        }
        // operations
        let ghost v2 = self@;
        let ghost ok = og.operation_order;
        let ghost ovs = ok.map_values(|k: Seq<char>| og.operations[k]);
        let mut entries = operation_def_stmts.into_entries();
        let ghost all = entries@;
        let n: usize = entries.len();
        let mut i: usize = 0;
        while entries.len() > 0
            invariant
                n == all.len(),
                all.len() == ok.len(),
                ok.len() == ovs.len(),
                forall|x: int| 0 <= x < all.len() ==> (#[trigger] all[x]).0@ == ok[x] && all[x].1 == ovs[x],
                i <= all.len(),
                entries@ == all.skip(i as int),
                self@ == merge_named_entries(v2, route@, ok.take(i as int), ovs.take(i as int),
                    |w: MergedView, k: Seq<char>, pb: ParsedBox<OperationDef>| put_operation(w, k, pb)),
            decreases entries.len(),
        {
            let (name, operation_def) = entries.remove(0);
            proof {
                assert(all[i as int] == (name, operation_def));
                assert(ok.take(i + 1).drop_last() =~= ok.take(i as int));
                assert(ovs.take(i + 1).drop_last() =~= ovs.take(i as int));
                assert(entries@ =~= all.skip(i + 1));
            }
            if self.contain_name(&name) {
                self.conflict_by_pb(&route, &operation_def);
            } else {
                let ghost before = self@;
                self.operation_def_stmts.insert(name, operation_def);
                proof {
                    assert(self@.uses =~= before.uses);
                    assert(self@.errors =~= before.errors);
                }
            }
            i = i + 1;
        }
        proof {
            assert(ok.take(i as int) =~= ok);
            assert(ovs.take(i as int) =~= ovs);
        }
        // binds
        let ghost v3 = self@;
        let ghost bk = og.bind_order;
        let ghost bvs = bk.map_values(|k: Seq<char>| og.binds[k]);
        let mut entries = bind_def_stmts.into_entries();
        let ghost all = entries@;
        let n: usize = entries.len();
        let mut i: usize = 0;
        while entries.len() > 0
            invariant
                n == all.len(),
                all.len() == bk.len(),
                bk.len() == bvs.len(),
                forall|x: int| 0 <= x < all.len() ==> (#[trigger] all[x]).0@ == bk[x] && all[x].1 == bvs[x],
                i <= all.len(),
                entries@ == all.skip(i as int),
                self@ == merge_named_entries(v3, route@, bk.take(i as int), bvs.take(i as int),
                    |w: MergedView, k: Seq<char>, pb: ParsedBox<BindDef>| put_bind(w, k, pb)),
            decreases entries.len(),
        {
            let (name, bind_def) = entries.remove(0);
            proof {
                assert(all[i as int] == (name, bind_def));
                assert(bk.take(i + 1).drop_last() =~= bk.take(i as int));
                assert(bvs.take(i + 1).drop_last() =~= bvs.take(i as int));
                assert(entries@ =~= all.skip(i + 1));
            }
            if self.contain_name(&name) {
                self.conflict_by_pb(&route, &bind_def);
            } else {
                let ghost before = self@;
                self.bind_def_stmts.insert(name, bind_def);
                proof {
                    assert(self@.uses =~= before.uses);
                    assert(self@.errors =~= before.errors);
                }
            }
            i = i + 1;
        }
        proof {
            assert(bk.take(i as int) =~= bk);
            assert(bvs.take(i as int) =~= bvs);
        }
        // unnamed statements
        let ghost v4 = self@;
        let mut coerce_stmts = coerce_stmts;
        let mut operator_stmts = operator_stmts;
        self.coerce_stmts.append(&mut coerce_stmts);
        self.operator_stmts.append(&mut operator_stmts);
        proof {
            assert(self@.uses =~= v4.uses);
            assert(self@.errors =~= v4.errors);
        }
        // uses
        let ghost v5 = self@;
        let ghost us = og.uses;
        let ghost all = use_stmts@;
        let mut use_stmts = use_stmts;
        let n: usize = use_stmts.len();
        let mut i: usize = 0;
        while use_stmts.len() > 0
            invariant
                n == all.len(),
                us == all.map_values(|u: (String, ParsedBox<Use>)| (u.0@, u.1)),
                i <= all.len(),
                use_stmts@ == all.skip(i as int),
                self@ == merge_use_entries(v5, route@, us.take(i as int)),
            decreases use_stmts.len(),
        {
            let (name, use_def) = use_stmts.remove(0);
            proof {
                assert(all[i as int] == (name, use_def));
                assert(us.take(i + 1).drop_last() =~= us.take(i as int));
                assert(us.take(i + 1).last() == (name@, use_def));
                assert(use_stmts@ =~= all.skip(i + 1));
            }
            if self.contain_name(&name) {
                self.conflict_by_pb(&route, &use_def);
            } else {
                let ghost before = self@;
                let ghost nv = name@;
                let ghost ud = use_def;
                self.use_stmts.push((name, use_def));
                proof {
                    assert(self@.uses =~= before.uses.push((nv, ud)));
                    assert(self@.errors =~= before.errors);
                }
            }
            i = i + 1;
        }
        proof {
            assert(us.take(i as int) =~= us);
        }
    }
}


/// Every submodule block found among `stmts` is the submodule of one of
/// them.
pub proof fn lemma_submodules_of(stmts: Seq<ParsedBox<DefinitionStmt>>, i: int)
    requires
        0 <= i < submodules_of(stmts).len(),
    ensures
        exists|j: int| 0 <= j < stmts.len() && stmts[j].value == DefinitionStmt::SubModule(submodules_of(stmts)[i]),
    decreases stmts.len(),
{
    let rest = submodules_of(stmts.drop_last());
    if i < rest.len() {
        lemma_submodules_of(stmts.drop_last(), i);
        let j = choose|j: int| 0 <= j < stmts.drop_last().len() && stmts.drop_last()[j].value
            == DefinitionStmt::SubModule(rest[i]);
        assert(stmts[j] == stmts.drop_last()[j]);
    } else {
        assert(stmts[stmts.len() - 1].value == DefinitionStmt::SubModule(submodules_of(stmts)[i]));
    }
}

/// A list of statements is larger than the module blocks among them.
pub proof fn lemma_submodule_smaller(stmts: Seq<ParsedBox<DefinitionStmt>>, i: int)
    requires
        0 <= i < submodules_of(stmts).len(),
    ensures
        decreases_to!(stmts => submodules_of(stmts)[i].value),
{
    lemma_submodules_of(stmts, i);
    let j = choose|j: int| 0 <= j < stmts.len() && stmts[j].value == DefinitionStmt::SubModule(submodules_of(stmts)[i]);
    let sub = submodules_of(stmts)[i];
    assert(decreases_to!(stmts => stmts[j]));
    assert(decreases_to!(stmts[j] => stmts[j].value));
    assert(stmts[j].value->SubModule_0 == sub);
    assert(decreases_to!(stmts[j].value => stmts[j].value->SubModule_0));
    assert(decreases_to!(sub => sub.value));
}

/// A module block is larger than its statements.
pub proof fn lemma_statements_smaller(module: Module)
    ensures
        decreases_to!(module => module.module_stmts.0@),
{
    assert(decreases_to!(module => module.module_stmts));
    assert(decreases_to!(module.module_stmts => module.module_stmts.0));
    assert(decreases_to!(module.module_stmts.0 => module.module_stmts.0@));
}

/// The table of modules, by route.
pub open spec fn module_table(m: &KeyedMap<Route, MergedModule>) -> Map<RouteView, MergedView> {
    Map::new(|k: RouteView| m.has(k), |k: RouteView| m.at(k)@)
}

/// The table `t` with the block `m` of the module at `key` merged under
/// `route`: merged into the module already there, or stored as it is.
pub open spec fn put_module(t: Map<RouteView, MergedView>, key: RouteView, route: RouteView, m: MergedView) -> Map<RouteView, MergedView> {
    if t.dom().contains(key) {
        t.insert(key, merged_with(t[key], route, m))
    } else {
        t.insert(key, m)
    }
}

/// The table `t` after the module block `module` under the module at
/// `parent` is merged in: the blocks inside it first (under its own route),
/// then the block itself, whose conflicts are reported under `parent`.
pub open spec fn merge_tree(t: Map<RouteView, MergedView>, parent: RouteView, module: Module) -> Map<RouteView, MergedView>
    decreases module, 1nat, 0nat,
{
    let this = parent.extend(seq![module.module_name.value.name@]);
    let stmts = module.module_stmts.0@;
    proof {
        lemma_statements_smaller(module);
    }
    let t2 = merge_trees(t, this, stmts, submodules_of(stmts).len());
    put_module(t2, this, parent, merged_from(parent, stmts))
}

/// The table `t` after the first `n` module blocks among `stmts` are merged
/// in under `this`.
pub open spec fn merge_trees(t: Map<RouteView, MergedView>, this: RouteView, stmts: Seq<ParsedBox<DefinitionStmt>>, n: nat) -> Map<RouteView, MergedView>
    decreases stmts, 0nat, n,
{
    let subs = submodules_of(stmts);
    if n == 0 || n > subs.len() {
        t
    } else {
        proof {
            lemma_submodule_smaller(stmts, n - 1);
        }
        merge_tree(merge_trees(t, this, stmts, (n - 1) as nat), this, subs[n - 1].value)
    }
}


/// The merged modules of one cell, by route.
#[derive(Debug)]
pub struct MergedModuleTable {
    pub m_modules: KeyedMap<Route, MergedModule>,
}

/// The merged module tables of every cell.
#[derive(Debug)]
pub struct GrandModuleMergeTable {
    pub cell_module_merge_tables: KeyedMap<CellSignature, MergedModuleTable>,
}

impl GrandModuleMergeTable {
    /// No cell yet.
    pub fn new_empty() -> (res: Self)
        ensures
            forall|c: Seq<char>| !res.cell_module_merge_tables.has(c),
    {
        Self { cell_module_merge_tables: KeyedMap::new() }
    }
}

impl MergedModuleTable {
    /// No module yet.
    pub fn new() -> (res: Self)
        ensures
            module_table(&res.m_modules) == Map::<RouteView, MergedView>::empty(),
    {
        let r = Self { m_modules: KeyedMap::new() };
        proof {
            assert(module_table(&r.m_modules) =~= Map::<RouteView, MergedView>::empty());
        }
        r
    }

    /// Stores the block `m` of the module at `key`, merging it under `route`
    /// into the module already there.
    fn store_module(&mut self, key: Route, route: Route, m: MergedModule)
        ensures
            module_table(&final(self).m_modules) == put_module(module_table(&old(self).m_modules), key@, route@, m@),
    {
        let ghost kv = key@;
        let ghost t0 = module_table(&self.m_modules);
        proof {
            if self.m_modules.has(kv) {
                assert(self.m_modules.as_map()[kv] == self.m_modules.at(kv));
            }
        }
        match self.m_modules.remove(&key) {
            Some(mut existing) => {
                let ghost mid = self.m_modules;
                existing.merge(route, m);
                let ghost ev = existing;
                self.m_modules.insert(key, existing);
                proof {
                    assert forall|k: RouteView| #[trigger] self.m_modules.has(k) == (t0.dom().contains(k)) by {
                        assert(self.m_modules.as_map().dom().contains(k) == self.m_modules.has(k));
                        assert(mid.as_map().dom().contains(k) == mid.has(k));
                        assert(old(self).m_modules.as_map().dom().contains(k) == old(self).m_modules.has(k));
                    }
                    assert forall|k: RouteView| self.m_modules.has(k) implies #[trigger] self.m_modules.at(k)@
                        == if k == kv { ev@ } else { t0[k] } by {
                        assert(self.m_modules.as_map()[k] == self.m_modules.at(k));
                        if k != kv {
                            assert(mid.as_map().dom().contains(k) == mid.has(k));
                            assert(mid.as_map()[k] == mid.at(k));
                            assert(old(self).m_modules.as_map()[k] == old(self).m_modules.at(k));
                        }
                    }
                    assert(module_table(&self.m_modules) =~= put_module(t0, kv, route@, m@));
                }
            },
            None => {
                let ghost mid = self.m_modules;
                let ghost mv = m;
                self.m_modules.insert(key, m);
                proof {
                    assert forall|k: RouteView| #[trigger] self.m_modules.has(k) == (t0.dom().contains(k) || k == kv) by {
                        assert(self.m_modules.as_map().dom().contains(k) == self.m_modules.has(k));
                        assert(mid.as_map().dom().contains(k) == mid.has(k));
                        assert(old(self).m_modules.as_map().dom().contains(k) == old(self).m_modules.has(k));
                    }
                    assert forall|k: RouteView| self.m_modules.has(k) implies #[trigger] self.m_modules.at(k)@
                        == if k == kv { mv@ } else { t0[k] } by {
                        assert(self.m_modules.as_map()[k] == self.m_modules.at(k));
                        if k != kv {
                            assert(mid.as_map().dom().contains(k) == mid.has(k));
                            assert(mid.as_map()[k] == mid.at(k));
                            assert(old(self).m_modules.as_map()[k] == old(self).m_modules.at(k));
                        }
                    }
                    assert(module_table(&self.m_modules) =~= put_module(t0, kv, route@, m@));
                }
            },
        }
    }

    /// Merges the blocks `sub_modules` (the module blocks among `stmts`) in
    /// under `this`, in order.
    fn merge_modules(&mut self, this: &Route, sub_modules: Vec<ParsedBox<Module>>, Ghost(stmts): Ghost<Seq<ParsedBox<DefinitionStmt>>>)
        requires
            sub_modules@ == submodules_of(stmts),
        ensures
            module_table(&final(self).m_modules) == merge_trees(module_table(&old(self).m_modules), this@, stmts,
                submodules_of(stmts).len()),
        decreases stmts, 0nat,
    {
        let ghost t0 = module_table(&self.m_modules);
        let ghost all = sub_modules@;
        let mut sub_modules = sub_modules;
        let n: usize = sub_modules.len();
        let mut i: usize = 0;
        while sub_modules.len() > 0
            invariant
                n == all.len(),
                all == submodules_of(stmts),
                i <= all.len(),
                sub_modules@ == all.skip(i as int),
                module_table(&self.m_modules) == merge_trees(t0, this@, stmts, i as nat),
            decreases sub_modules.len(),
        {
            let sub = sub_modules.remove(0);
            proof {
                assert(all[i as int] == sub);
                assert(sub_modules@ =~= all.skip(i + 1));
                lemma_submodule_smaller(stmts, i as int);
            }
            self.merge_module(this.duplicate(), sub.value);
            i = i + 1;
        }
    }

    /// Merges the module block `module` under the module at
    /// `parent_module_route`, as `merge_tree` says.
    fn merge_module(&mut self, parent_module_route: CanonicalRoute, module: Module)
        ensures
            module_table(&final(self).m_modules) == merge_tree(module_table(&old(self).m_modules), parent_module_route@, module),
        decreases module, 1nat,
    {
        let ghost gm = module;
        proof {
            lemma_statements_smaller(module);
        }
        let this_mod_name = module.module_name.value.get_name();
        let this_mod_route = Route::chain_one(parent_module_route.duplicate(), this_mod_name);
        let (other, sub_modules) = MergedModule::new(parent_module_route.duplicate(), module.module_stmts);
        self.merge_modules(&this_mod_route, sub_modules, Ghost(gm.module_stmts.0@));
        self.store_module(this_mod_route, parent_module_route, other);
    }

    /// Merges the parsed file `file_parsed_result` of the cell
    /// `cell_signature` into the table: the module blocks it holds first,
    /// then its top-level statements as the cell's root module.
    pub fn merge_program(&mut self, cell_signature: CellSignature, file_parsed_result: Program)
        ensures
            ({
                let root = RouteView { root: cell_signature@, path: Seq::empty() };
                let stmts = file_parsed_result.stmts.0@;
                module_table(&final(self).m_modules) == put_module(
                    merge_trees(module_table(&old(self).m_modules), root, stmts, submodules_of(stmts).len()),
                    root,
                    root,
                    merged_from(root, stmts),
                )
            }),
    {
        let ghost stmts = file_parsed_result.stmts.0@;
        let root_module_route = CanonicalRoute::new(cell_signature);
        let (root_merged_module, sub_modules) = MergedModule::new(root_module_route.duplicate(), file_parsed_result.stmts);
        self.merge_modules(&root_module_route, sub_modules, Ghost(stmts));
        self.store_module(root_module_route.duplicate(), root_module_route, root_merged_module);
    }
}

} // verus!
