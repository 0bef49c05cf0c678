use vstd::prelude::*;
use crate::computable_shape::{ComputableShape, ComputableShapeGut, IsSubShapeResult};
use crate::elementary_shape::{ElementaryPShape, ElementaryShape, core_type_list, core_types};
use crate::keyed::{KeyView, KeyedMap, KeyedSet};
use crate::lookup_canonical_route::GrandModuleSkeletonTable;
use crate::module_merge::GrandModuleMergeTable;
use crate::route::Route;
use crate::shape_data::{
    OperatorHeadView, ShapeHeadView,
    BindContent, BindContentHeadKey, ClosureDescription, CoerceContent, CoerceContentHeadKey, FunctionDescription,
    FunctionDescriptionContext, GenericParamDescription, InClosureDescriptionContext, OperationContent,
    OperationContentHeadKey, OperatorContent, OperatorContentHeadKey, ShapeContent, ShapeContentHeadKey, ShapeDescription,
    ShapeDescriptionContext,
};
use crate::shape_errors::ShapeDefinitionResolutionErrors;
use crate::shape_keys::{
    BindContentKey, ClosureDescriptionKey, CoerceContentKey, ComputableShapeKey, FunctionDescriptionContextKey,
    FunctionDescriptionKey, GenericParamDescriptionKey, InClosureDescriptionContextKey, OperationContentKey,
    OperatorContentKey, ShapeContentKey, ShapeDescriptionContextKey, ShapeDescriptionKey,
};

verus! {

impl View for ElementaryShape {
    type V = ElementaryShape;

    open spec fn view(&self) -> ElementaryShape {
        *self
    }
}

impl KeyView for ElementaryShape {
    fn key_eq(&self, other: &Self) -> (res: bool) {
        *self == *other
    }

    fn key_dup(&self) -> (res: Self) {
        *self
    }
}

/// The tables the summary keeps its values in; a key is an index into one.
#[derive(Debug)]
pub struct KVTables {
    pub shape_content_table: Vec<ShapeContent>,
    pub operation_content_table: Vec<OperationContent>,
    pub bind_content_table: Vec<BindContent>,
    pub operator_content_table: Vec<OperatorContent>,
    pub coerce_content_table: Vec<CoerceContent>,
    pub generic_param_description_table: Vec<GenericParamDescription>,
    pub shape_description_table: Vec<ShapeDescription>,
    pub shape_description_context_table: Vec<ShapeDescriptionContext>,
    pub function_description_table: Vec<FunctionDescription>,
    pub function_description_context_table: Vec<FunctionDescriptionContext>,
    pub closure_description_table: Vec<ClosureDescription>,
    pub in_closure_description_context_table: Vec<InClosureDescriptionContext>,
    pub computable_shape_table: Vec<ComputableShape>,
}

impl KVTables {
    /// Every table empty.
    pub fn new() -> (res: Self)
        ensures
            res.shape_content_table@.len() == 0,
            res.operation_content_table@.len() == 0,
            res.bind_content_table@.len() == 0,
            res.operator_content_table@.len() == 0,
            res.coerce_content_table@.len() == 0,
            res.generic_param_description_table@.len() == 0,
            res.shape_description_table@.len() == 0,
            res.shape_description_context_table@.len() == 0,
            res.function_description_table@.len() == 0,
            res.function_description_context_table@.len() == 0,
            res.closure_description_table@.len() == 0,
            res.in_closure_description_context_table@.len() == 0,
            res.computable_shape_table@.len() == 0,
    {
        Self {
            shape_content_table: Vec::new(),
            operation_content_table: Vec::new(),
            bind_content_table: Vec::new(),
            operator_content_table: Vec::new(),
            coerce_content_table: Vec::new(),
            generic_param_description_table: Vec::new(),
            shape_description_table: Vec::new(),
            shape_description_context_table: Vec::new(),
            function_description_table: Vec::new(),
            function_description_context_table: Vec::new(),
            closure_description_table: Vec::new(),
            in_closure_description_context_table: Vec::new(),
            computable_shape_table: Vec::new(),
        }
    }
}

/// The subshape questions asked so far, as pairs (subshape, supershape)
/// stored by supershape: answered yes, no, undecided, too costly, and
/// assumed while one is being decided.
#[derive(Debug)]
pub struct SubShapeTableBuffer {
    pub proven_true: KeyedMap<ComputableShapeKey, KeyedSet<ComputableShapeKey>>,
    pub proven_false: KeyedMap<ComputableShapeKey, KeyedSet<ComputableShapeKey>>,
    pub proven_stuck: KeyedMap<ComputableShapeKey, KeyedSet<ComputableShapeKey>>,
    pub proven_overcost: KeyedMap<ComputableShapeKey, KeyedSet<ComputableShapeKey>>,
    pub assumption: KeyedMap<ComputableShapeKey, KeyedSet<ComputableShapeKey>>,
}

/// The pairs (subshape, supershape) a table holds.
pub open spec fn pairs(m: &KeyedMap<ComputableShapeKey, KeyedSet<ComputableShapeKey>>) -> Set<(usize, usize)> {
    Set::new(|p: (usize, usize)| m.has(p.1) && m.at(p.1).has(p.0))
}

/// Adds the pair (`subset`, `superset`) to a table.
fn add_pair(m: &mut KeyedMap<ComputableShapeKey, KeyedSet<ComputableShapeKey>>, subset: ComputableShapeKey, superset: ComputableShapeKey)
    ensures
        pairs(final(m)) == pairs(old(m)).insert((subset.0, superset.0)),
        forall|k: usize| #[trigger] final(m).has(k) == (old(m).has(k) || k == superset.0),
{
    let ghost sub = subset.0;
    let ghost sup = superset.0;
    proof {
        if old(m).has(sup) {
            assert(old(m).as_map()[sup] == old(m).at(sup));
        }
    }
    let mut set = match m.remove(&superset) {
        Some(s) => s,
        None => KeyedSet::new(),
    };
    let ghost mid = *m;
    set.insert(subset);
    let ghost sv = set;
    m.insert(superset, set);
    proof {
        assert forall|k: usize| #[trigger] m.has(k) == (old(m).has(k) || k == sup) by {
            assert(m.as_map().dom().contains(k) == m.has(k));
            assert(mid.as_map().dom().contains(k) == mid.has(k));
            assert(old(m).as_map().dom().contains(k) == old(m).has(k));
        }
        assert forall|k: usize| m.has(k) && k != sup implies #[trigger] m.at(k) == old(m).at(k) by {
            assert(m.as_map()[k] == m.at(k));
            assert(mid.as_map().dom().contains(k) == mid.has(k));
            assert(mid.as_map()[k] == mid.at(k));
            assert(old(m).as_map()[k] == old(m).at(k));
        }
        assert(m.as_map()[sup] == m.at(sup));
        assert forall|p: (usize, usize)| pairs(m).contains(p) == pairs(old(m)).insert((sub, sup)).contains(p) by {
            if p.1 == sup {
                assert(sv.as_set().contains(p.0) == sv.has(p.0));
                if old(m).has(sup) {
                    assert(old(m).at(sup).as_set().contains(p.0) == old(m).at(sup).has(p.0));
                }
            }
        }
        assert(pairs(m) =~= pairs(old(m)).insert((sub, sup)));
    }
}

/// Whether a table holds the pair (`subset`, `superset`).
fn has_pair(m: &KeyedMap<ComputableShapeKey, KeyedSet<ComputableShapeKey>>, subset: &ComputableShapeKey, superset: &ComputableShapeKey) -> (res: bool)
    ensures
        res == pairs(m).contains((subset.0, superset.0)),
{
    match m.get(superset) {
        Some(set) => set.contains(subset),
        None => false,
    }
}

impl SubShapeTableBuffer {
    /// No question asked yet.
    pub fn new() -> (res: Self)
        ensures
            pairs(&res.proven_true) == Set::<(usize, usize)>::empty(),
            pairs(&res.proven_false) == Set::<(usize, usize)>::empty(),
            pairs(&res.proven_stuck) == Set::<(usize, usize)>::empty(),
            pairs(&res.proven_overcost) == Set::<(usize, usize)>::empty(),
            pairs(&res.assumption) == Set::<(usize, usize)>::empty(),
            res.proven_true.as_map().dom() == Set::<usize>::empty(),
            res.proven_false.as_map().dom() == Set::<usize>::empty(),
            res.proven_stuck.as_map().dom() == Set::<usize>::empty(),
            res.proven_overcost.as_map().dom() == Set::<usize>::empty(),
            res.assumption.as_map().dom() == Set::<usize>::empty(),
    {
        let r = Self {
            proven_true: KeyedMap::new(),
            proven_false: KeyedMap::new(),
            proven_stuck: KeyedMap::new(),
            proven_overcost: KeyedMap::new(),
            assumption: KeyedMap::new(),
        };
        proof {
            assert(pairs(&r.proven_true) =~= Set::<(usize, usize)>::empty());
            assert(pairs(&r.proven_false) =~= Set::<(usize, usize)>::empty());
            assert(pairs(&r.proven_stuck) =~= Set::<(usize, usize)>::empty());
            assert(pairs(&r.proven_overcost) =~= Set::<(usize, usize)>::empty());
            assert(pairs(&r.assumption) =~= Set::<(usize, usize)>::empty());
            assert(r.proven_true.as_map().dom() =~= Set::<usize>::empty());
            assert(r.proven_false.as_map().dom() =~= Set::<usize>::empty());
            assert(r.proven_stuck.as_map().dom() =~= Set::<usize>::empty());
            assert(r.proven_overcost.as_map().dom() =~= Set::<usize>::empty());
            assert(r.assumption.as_map().dom() =~= Set::<usize>::empty());
        }
        r
    }
}

/// A node of the graph of shapes.
#[derive(Debug, Clone, Copy, PartialEq, Eq, Structural)]
pub struct ShapeGraphNodeKey(pub usize);

impl View for ShapeGraphNodeKey {
    type V = usize;

    open spec fn view(&self) -> usize {
        self.0
    }
}

impl KeyView for ShapeGraphNodeKey {
    fn key_eq(&self, other: &Self) -> (res: bool) {
        self.0 == other.0
    }

    fn key_dup(&self) -> (res: Self) {
        *self
    }
}

/// How an annotated subshape relation stands.
#[derive(Debug, Clone, Copy, PartialEq, Eq, Structural)]
pub enum AnnotatedSubshapeKind {
    ProvedTrue,
    ProvedFalse,
    Unproved,
}

/// What a node of the graph of shapes stands for.
#[derive(Debug)]
pub enum ShapeGraphNodeSignature {
    Elementary(ElementaryShape),
    Specific(Route, Vec<ComputableShapeKey>),
}

/// A node of the graph of shapes with its relations.
#[derive(Debug)]
pub struct ShapeGraphNode {
    pub key: ShapeGraphNodeKey,
    pub signatures: Vec<ShapeGraphNodeSignature>,
    pub annotation_subshapes: KeyedMap<ShapeGraphNodeKey, AnnotatedSubshapeKind>,
    pub coerce: Vec<CoerceContentHeadKey>,
    pub bind_oprd: Vec<BindContentHeadKey>,
    pub operator_oprd1: Vec<OperatorContentHeadKey>,
    pub operator_oprd2: Vec<OperatorContentHeadKey>,
}

/// The graph of shapes.
#[derive(Debug)]
pub struct ShapeGraph {
    pub nodes: KeyedMap<ShapeGraphNodeKey, ShapeGraphNode>,
    pub from_def: KeyedMap<ShapeContentHeadKey, ShapeGraphNodeKey>,
}

impl ShapeGraph {
    /// A graph with no node.
    pub fn new() -> (res: Self)
        ensures
            res.nodes.size() == 0,
            res.from_def.size() == 0,
    {
        Self { nodes: KeyedMap::new(), from_def: KeyedMap::new() }
    }
}

/// Everything shape resolution knows: the tables of values, the content of
/// each head, the computable shape of each description, the computable
/// shape of each elementary shape, the subshape questions, the binds of
/// each shape by name, the graph of shapes and the errors.
#[derive(Debug)]
pub struct GrandShapeContentSummary {
    pub kv_tables: KVTables,
    pub shape_content_heads: KeyedMap<ShapeContentHeadKey, ShapeContentKey>,
    pub operation_content_heads: KeyedMap<OperationContentHeadKey, OperationContentKey>,
    pub bind_content_heads: KeyedMap<BindContentHeadKey, BindContentKey>,
    pub operator_content_heads: KeyedMap<OperatorContentHeadKey, Vec<OperatorContentKey>>,
    pub coerce_content_heads: KeyedMap<CoerceContentHeadKey, Vec<CoerceContentKey>>,
    pub computable_shape_table: KeyedMap<ShapeDescriptionKey, ComputableShapeKey>,
    pub ecs_key_table: KeyedMap<ElementaryShape, ComputableShapeKey>,
    pub sub_shape_table_buffer: SubShapeTableBuffer,
    pub bind_name_table: KeyedMap<ShapeContentHeadKey, KeyedMap<String, Vec<BindContentHeadKey>>>,
    pub graph: ShapeGraph,
    pub errors: ShapeDefinitionResolutionErrors,
}

/// The summary at work, with the name tables it reads and the merged
/// modules it takes its definitions from.
pub struct GrandShapeContentSummaryAtWork<'a> {
    pub grand_module_skeleton_table: &'a GrandModuleSkeletonTable,
    pub grand_module_merge_table: GrandModuleMergeTable,
    pub gsc_summary: GrandShapeContentSummary,
}

impl<'a> GrandShapeContentSummaryAtWork<'a> {
    /// Stores a `ShapeContent` and hands back its key: the next index of its table.
    pub fn new_shape_content(&mut self, value: ShapeContent) -> (res: ShapeContentKey)
        requires
            old(self).gsc_summary.kv_tables.shape_content_table@.len() < usize::MAX,
        ensures
            res.0 == old(self).gsc_summary.kv_tables.shape_content_table@.len(),
            final(self).gsc_summary.kv_tables.shape_content_table@ == old(self).gsc_summary.kv_tables.shape_content_table@.push(value),
    {
        self.gsc_summary.kv_tables.shape_content_table.push(value);
        ShapeContentKey(self.gsc_summary.kv_tables.shape_content_table.len() - 1)
    }

    /// The `ShapeContent` stored under `key`.
    pub fn get_shape_content(&self, key: ShapeContentKey) -> (res: &ShapeContent)
        requires
            key.0 < self.gsc_summary.kv_tables.shape_content_table@.len(),
        ensures
            *res == self.gsc_summary.kv_tables.shape_content_table@[key.0 as int],
    {
        &self.gsc_summary.kv_tables.shape_content_table[key.idx()]
    }

    /// Stores a `OperationContent` and hands back its key: the next index of its table.
    pub fn new_operation_content(&mut self, value: OperationContent) -> (res: OperationContentKey)
        requires
            old(self).gsc_summary.kv_tables.operation_content_table@.len() < usize::MAX,
        ensures
            res.0 == old(self).gsc_summary.kv_tables.operation_content_table@.len(),
            final(self).gsc_summary.kv_tables.operation_content_table@ == old(self).gsc_summary.kv_tables.operation_content_table@.push(value),
    {
        self.gsc_summary.kv_tables.operation_content_table.push(value);
        OperationContentKey(self.gsc_summary.kv_tables.operation_content_table.len() - 1)
    }

    /// The `OperationContent` stored under `key`.
    pub fn get_operation_content(&self, key: OperationContentKey) -> (res: &OperationContent)
        requires
            key.0 < self.gsc_summary.kv_tables.operation_content_table@.len(),
        ensures
            *res == self.gsc_summary.kv_tables.operation_content_table@[key.0 as int],
    {
        &self.gsc_summary.kv_tables.operation_content_table[key.idx()]
    }

    /// Stores a `BindContent` and hands back its key: the next index of its table.
    pub fn new_bind_content(&mut self, value: BindContent) -> (res: BindContentKey)
        requires
            old(self).gsc_summary.kv_tables.bind_content_table@.len() < usize::MAX,
        ensures
            res.0 == old(self).gsc_summary.kv_tables.bind_content_table@.len(),
            final(self).gsc_summary.kv_tables.bind_content_table@ == old(self).gsc_summary.kv_tables.bind_content_table@.push(value),
    {
        self.gsc_summary.kv_tables.bind_content_table.push(value);
        BindContentKey(self.gsc_summary.kv_tables.bind_content_table.len() - 1)
    }

    /// The `BindContent` stored under `key`.
    pub fn get_bind_content(&self, key: BindContentKey) -> (res: &BindContent)
        requires
            key.0 < self.gsc_summary.kv_tables.bind_content_table@.len(),
        ensures
            *res == self.gsc_summary.kv_tables.bind_content_table@[key.0 as int],
    {
        &self.gsc_summary.kv_tables.bind_content_table[key.idx()]
    }

    /// Stores a `OperatorContent` and hands back its key: the next index of its table.
    pub fn new_operator_content(&mut self, value: OperatorContent) -> (res: OperatorContentKey)
        requires
            old(self).gsc_summary.kv_tables.operator_content_table@.len() < usize::MAX,
        ensures
            res.0 == old(self).gsc_summary.kv_tables.operator_content_table@.len(),
            final(self).gsc_summary.kv_tables.operator_content_table@ == old(self).gsc_summary.kv_tables.operator_content_table@.push(value),
    {
        self.gsc_summary.kv_tables.operator_content_table.push(value);
        OperatorContentKey(self.gsc_summary.kv_tables.operator_content_table.len() - 1)
    }

    /// The `OperatorContent` stored under `key`.
    pub fn get_operator_content(&self, key: OperatorContentKey) -> (res: &OperatorContent)
        requires
            key.0 < self.gsc_summary.kv_tables.operator_content_table@.len(),
        ensures
            *res == self.gsc_summary.kv_tables.operator_content_table@[key.0 as int],
    {
        &self.gsc_summary.kv_tables.operator_content_table[key.idx()]
    }

    /// Stores a `CoerceContent` and hands back its key: the next index of its table.
    pub fn new_coerce_content(&mut self, value: CoerceContent) -> (res: CoerceContentKey)
        requires
            old(self).gsc_summary.kv_tables.coerce_content_table@.len() < usize::MAX,
        ensures
            res.0 == old(self).gsc_summary.kv_tables.coerce_content_table@.len(),
            final(self).gsc_summary.kv_tables.coerce_content_table@ == old(self).gsc_summary.kv_tables.coerce_content_table@.push(value),
    {
        self.gsc_summary.kv_tables.coerce_content_table.push(value);
        CoerceContentKey(self.gsc_summary.kv_tables.coerce_content_table.len() - 1)
    }

    /// The `CoerceContent` stored under `key`.
    pub fn get_coerce_content(&self, key: CoerceContentKey) -> (res: &CoerceContent)
        requires
            key.0 < self.gsc_summary.kv_tables.coerce_content_table@.len(),
        ensures
            *res == self.gsc_summary.kv_tables.coerce_content_table@[key.0 as int],
    {
        &self.gsc_summary.kv_tables.coerce_content_table[key.idx()]
    }

    /// Stores a `GenericParamDescription` and hands back its key: the next index of its table.
    pub fn new_generic_param_description(&mut self, value: GenericParamDescription) -> (res: GenericParamDescriptionKey)
        requires
            old(self).gsc_summary.kv_tables.generic_param_description_table@.len() < usize::MAX,
        ensures
            res.0 == old(self).gsc_summary.kv_tables.generic_param_description_table@.len(),
            final(self).gsc_summary.kv_tables.generic_param_description_table@ == old(self).gsc_summary.kv_tables.generic_param_description_table@.push(value),
            final(self).grand_module_skeleton_table == old(self).grand_module_skeleton_table,
            final(self).grand_module_merge_table == old(self).grand_module_merge_table,
            final(self).gsc_summary == (GrandShapeContentSummary {
                kv_tables: KVTables {
                    generic_param_description_table: final(self).gsc_summary.kv_tables.generic_param_description_table,
                    ..old(self).gsc_summary.kv_tables
                },
                ..old(self).gsc_summary
            }),
    {
        self.gsc_summary.kv_tables.generic_param_description_table.push(value);
        GenericParamDescriptionKey(self.gsc_summary.kv_tables.generic_param_description_table.len() - 1)
    }

    /// The `GenericParamDescription` stored under `key`.
    pub fn get_generic_param_description(&self, key: GenericParamDescriptionKey) -> (res: &GenericParamDescription)
        requires
            key.0 < self.gsc_summary.kv_tables.generic_param_description_table@.len(),
        ensures
            *res == self.gsc_summary.kv_tables.generic_param_description_table@[key.0 as int],
    {
        &self.gsc_summary.kv_tables.generic_param_description_table[key.idx()]
    }

    /// Stores a `ShapeDescription` and hands back its key: the next index of its table.
    pub fn new_shape_description(&mut self, value: ShapeDescription) -> (res: ShapeDescriptionKey)
        requires
            old(self).gsc_summary.kv_tables.shape_description_table@.len() < usize::MAX,
        ensures
            res.0 == old(self).gsc_summary.kv_tables.shape_description_table@.len(),
            final(self).gsc_summary.kv_tables.shape_description_table@ == old(self).gsc_summary.kv_tables.shape_description_table@.push(value),
            final(self).same_but_descriptions(*old(self)),
    {
        self.gsc_summary.kv_tables.shape_description_table.push(value);
        ShapeDescriptionKey(self.gsc_summary.kv_tables.shape_description_table.len() - 1)
    }

    /// The `ShapeDescription` stored under `key`.
    pub fn get_shape_description(&self, key: ShapeDescriptionKey) -> (res: &ShapeDescription)
        requires
            key.0 < self.gsc_summary.kv_tables.shape_description_table@.len(),
        ensures
            *res == self.gsc_summary.kv_tables.shape_description_table@[key.0 as int],
    {
        &self.gsc_summary.kv_tables.shape_description_table[key.idx()]
    }

    /// Stores a `ShapeDescriptionContext` and hands back its key: the next index of its table.
    pub fn new_shape_description_context(&mut self, value: ShapeDescriptionContext) -> (res: ShapeDescriptionContextKey)
        requires
            old(self).gsc_summary.kv_tables.shape_description_context_table@.len() < usize::MAX,
        ensures
            res.0 == old(self).gsc_summary.kv_tables.shape_description_context_table@.len(),
            final(self).gsc_summary.kv_tables.shape_description_context_table@ == old(self).gsc_summary.kv_tables.shape_description_context_table@.push(value),
            final(self).grand_module_skeleton_table == old(self).grand_module_skeleton_table,
            final(self).grand_module_merge_table == old(self).grand_module_merge_table,
            final(self).gsc_summary == (GrandShapeContentSummary {
                kv_tables: KVTables {
                    shape_description_context_table: final(self).gsc_summary.kv_tables.shape_description_context_table,
                    ..old(self).gsc_summary.kv_tables
                },
                ..old(self).gsc_summary
            }),
    {
        self.gsc_summary.kv_tables.shape_description_context_table.push(value);
        ShapeDescriptionContextKey(self.gsc_summary.kv_tables.shape_description_context_table.len() - 1)
    }

    /// The `ShapeDescriptionContext` stored under `key`.
    pub fn get_shape_description_context(&self, key: ShapeDescriptionContextKey) -> (res: &ShapeDescriptionContext)
        requires
            key.0 < self.gsc_summary.kv_tables.shape_description_context_table@.len(),
        ensures
            *res == self.gsc_summary.kv_tables.shape_description_context_table@[key.0 as int],
    {
        &self.gsc_summary.kv_tables.shape_description_context_table[key.idx()]
    }

    /// Stores a `FunctionDescription` and hands back its key: the next index of its table.
    pub fn new_function_description(&mut self, value: FunctionDescription) -> (res: FunctionDescriptionKey)
        requires
            old(self).gsc_summary.kv_tables.function_description_table@.len() < usize::MAX,
        ensures
            res.0 == old(self).gsc_summary.kv_tables.function_description_table@.len(),
            final(self).gsc_summary.kv_tables.function_description_table@ == old(self).gsc_summary.kv_tables.function_description_table@.push(value),
            final(self).grand_module_skeleton_table == old(self).grand_module_skeleton_table,
            final(self).grand_module_merge_table == old(self).grand_module_merge_table,
            final(self).gsc_summary == (GrandShapeContentSummary {
                kv_tables: KVTables {
                    function_description_table: final(self).gsc_summary.kv_tables.function_description_table,
                    ..old(self).gsc_summary.kv_tables
                },
                ..old(self).gsc_summary
            }),
    {
        self.gsc_summary.kv_tables.function_description_table.push(value);
        FunctionDescriptionKey(self.gsc_summary.kv_tables.function_description_table.len() - 1)
    }

    /// The `FunctionDescription` stored under `key`.
    pub fn get_function_description(&self, key: FunctionDescriptionKey) -> (res: &FunctionDescription)
        requires
            key.0 < self.gsc_summary.kv_tables.function_description_table@.len(),
        ensures
            *res == self.gsc_summary.kv_tables.function_description_table@[key.0 as int],
    {
        &self.gsc_summary.kv_tables.function_description_table[key.idx()]
    }

    /// Stores a `FunctionDescriptionContext` and hands back its key: the next index of its table.
    pub fn new_function_description_context(&mut self, value: FunctionDescriptionContext) -> (res: FunctionDescriptionContextKey)
        requires
            old(self).gsc_summary.kv_tables.function_description_context_table@.len() < usize::MAX,
        ensures
            res.0 == old(self).gsc_summary.kv_tables.function_description_context_table@.len(),
            final(self).gsc_summary.kv_tables.function_description_context_table@ == old(self).gsc_summary.kv_tables.function_description_context_table@.push(value),
            final(self).grand_module_skeleton_table == old(self).grand_module_skeleton_table,
            final(self).grand_module_merge_table == old(self).grand_module_merge_table,
            final(self).gsc_summary == (GrandShapeContentSummary {
                kv_tables: KVTables {
                    function_description_context_table: final(self).gsc_summary.kv_tables.function_description_context_table,
                    ..old(self).gsc_summary.kv_tables
                },
                ..old(self).gsc_summary
            }),
    {
        self.gsc_summary.kv_tables.function_description_context_table.push(value);
        FunctionDescriptionContextKey(self.gsc_summary.kv_tables.function_description_context_table.len() - 1)
    }

    /// The `FunctionDescriptionContext` stored under `key`.
    pub fn get_function_description_context(&self, key: FunctionDescriptionContextKey) -> (res: &FunctionDescriptionContext)
        requires
            key.0 < self.gsc_summary.kv_tables.function_description_context_table@.len(),
        ensures
            *res == self.gsc_summary.kv_tables.function_description_context_table@[key.0 as int],
    {
        &self.gsc_summary.kv_tables.function_description_context_table[key.idx()]
    }

    /// Stores a `ClosureDescription` and hands back its key: the next index of its table.
    pub fn new_closure_description(&mut self, value: ClosureDescription) -> (res: ClosureDescriptionKey)
        requires
            old(self).gsc_summary.kv_tables.closure_description_table@.len() < usize::MAX,
        ensures
            res.0 == old(self).gsc_summary.kv_tables.closure_description_table@.len(),
            final(self).gsc_summary.kv_tables.closure_description_table@ == old(self).gsc_summary.kv_tables.closure_description_table@.push(value),
            final(self).grand_module_skeleton_table == old(self).grand_module_skeleton_table,
            final(self).grand_module_merge_table == old(self).grand_module_merge_table,
            final(self).gsc_summary == (GrandShapeContentSummary {
                kv_tables: KVTables {
                    closure_description_table: final(self).gsc_summary.kv_tables.closure_description_table,
                    ..old(self).gsc_summary.kv_tables
                },
                ..old(self).gsc_summary
            }),
    {
        self.gsc_summary.kv_tables.closure_description_table.push(value);
        ClosureDescriptionKey(self.gsc_summary.kv_tables.closure_description_table.len() - 1)
    }

    /// The `ClosureDescription` stored under `key`.
    pub fn get_closure_description(&self, key: ClosureDescriptionKey) -> (res: &ClosureDescription)
        requires
            key.0 < self.gsc_summary.kv_tables.closure_description_table@.len(),
        ensures
            *res == self.gsc_summary.kv_tables.closure_description_table@[key.0 as int],
    {
        &self.gsc_summary.kv_tables.closure_description_table[key.idx()]
    }

    /// Stores a `InClosureDescriptionContext` and hands back its key: the next index of its table.
    pub fn new_in_closure_description_context(&mut self, value: InClosureDescriptionContext) -> (res: InClosureDescriptionContextKey)
        requires
            old(self).gsc_summary.kv_tables.in_closure_description_context_table@.len() < usize::MAX,
        ensures
            res.0 == old(self).gsc_summary.kv_tables.in_closure_description_context_table@.len(),
            final(self).gsc_summary.kv_tables.in_closure_description_context_table@ == old(self).gsc_summary.kv_tables.in_closure_description_context_table@.push(value),
    {
        self.gsc_summary.kv_tables.in_closure_description_context_table.push(value);
        InClosureDescriptionContextKey(self.gsc_summary.kv_tables.in_closure_description_context_table.len() - 1)
    }

    /// The `InClosureDescriptionContext` stored under `key`.
    pub fn get_in_closure_description_context(&self, key: InClosureDescriptionContextKey) -> (res: &InClosureDescriptionContext)
        requires
            key.0 < self.gsc_summary.kv_tables.in_closure_description_context_table@.len(),
        ensures
            *res == self.gsc_summary.kv_tables.in_closure_description_context_table@[key.0 as int],
    {
        &self.gsc_summary.kv_tables.in_closure_description_context_table[key.idx()]
    }

    /// Stores a `ComputableShape` and hands back its key: the next index of its table.
    pub fn new_computable_shape(&mut self, value: ComputableShape) -> (res: ComputableShapeKey)
        requires
            old(self).gsc_summary.kv_tables.computable_shape_table@.len() < usize::MAX,
        ensures
            res.0 == old(self).gsc_summary.kv_tables.computable_shape_table@.len(),
            final(self).gsc_summary.kv_tables.computable_shape_table@ == old(self).gsc_summary.kv_tables.computable_shape_table@.push(value),
    {
        self.gsc_summary.kv_tables.computable_shape_table.push(value);
        ComputableShapeKey(self.gsc_summary.kv_tables.computable_shape_table.len() - 1)
    }

    /// The `ComputableShape` stored under `key`.
    pub fn get_computable_shape(&self, key: ComputableShapeKey) -> (res: &ComputableShape)
        requires
            key.0 < self.gsc_summary.kv_tables.computable_shape_table@.len(),
        ensures
            *res == self.gsc_summary.kv_tables.computable_shape_table@[key.0 as int],
    {
        &self.gsc_summary.kv_tables.computable_shape_table[key.idx()]
    }
}


/// Takes the pair (`subset`, `superset`) out of a table, if the table has
/// an entry for `superset`.
fn remove_pair(m: &mut KeyedMap<ComputableShapeKey, KeyedSet<ComputableShapeKey>>, subset: &ComputableShapeKey, superset: &ComputableShapeKey) -> (res: Option<()>)
    ensures
        res is Some == old(m).has(superset.0),
        res is Some ==> pairs(final(m)) == pairs(old(m)).remove((subset.0, superset.0)),
        res is None ==> pairs(final(m)) == pairs(old(m)),
        forall|k: usize| #[trigger] final(m).has(k) == old(m).has(k),
{
    let ghost sub = subset.0;
    let ghost sup = superset.0;
    proof {
        if old(m).has(sup) {
            assert(old(m).as_map()[sup] == old(m).at(sup));
        }
    }
    match m.remove(superset) {
        Some(set) => {
            let mut set = set;
            let ghost mid = *m;
            set.remove(subset);
            let ghost sv = set;
            m.insert(superset.key_dup(), set);
            proof {
                assert forall|k: usize| #[trigger] m.has(k) == old(m).has(k) by {
                    assert(m.as_map().dom().contains(k) == m.has(k));
                    assert(mid.as_map().dom().contains(k) == mid.has(k));
                    assert(old(m).as_map().dom().contains(k) == old(m).has(k));
                }
                assert forall|k: usize| m.has(k) && k != sup implies #[trigger] m.at(k) == old(m).at(k) by {
                    assert(m.as_map()[k] == m.at(k));
                    assert(mid.as_map().dom().contains(k) == mid.has(k));
                    assert(mid.as_map()[k] == mid.at(k));
                    assert(old(m).as_map()[k] == old(m).at(k));
                }
                assert(m.as_map()[sup] == m.at(sup));
                assert forall|p: (usize, usize)| pairs(m).contains(p) == pairs(old(m)).remove((sub, sup)).contains(p) by {
                    if p.1 == sup {
                        assert(sv.as_set().contains(p.0) == sv.has(p.0));
                        assert(old(m).at(sup).as_set().contains(p.0) == old(m).at(sup).has(p.0));
                    }
                }
                assert(pairs(m) =~= pairs(old(m)).remove((sub, sup)));
            }
            Some(())
        },
        None => {
            proof {
                assert forall|k: usize| m.has(k) implies #[trigger] m.at(k) == old(m).at(k) by {
                    assert(m.as_map()[k] == m.at(k));
                    assert(m.as_map().dom().contains(k) == m.has(k));
                    assert(old(m).as_map().dom().contains(k) == old(m).has(k));
                    assert(old(m).as_map()[k] == old(m).at(k));
                }
                assert(pairs(m) =~= pairs(old(m)));
            }
            None
        },
    }
}

impl<'a> GrandShapeContentSummaryAtWork<'a> {
    /// Whether only the table of shape descriptions differs from `old`.
    pub open spec fn same_but_descriptions(&self, old: Self) -> bool {
        let t = self.gsc_summary.kv_tables;
        let o = old.gsc_summary.kv_tables;
        &&& self.grand_module_skeleton_table == old.grand_module_skeleton_table
        &&& self.grand_module_merge_table == old.grand_module_merge_table
        &&& t.shape_content_table == o.shape_content_table
        &&& t.operation_content_table == o.operation_content_table
        &&& t.bind_content_table == o.bind_content_table
        &&& t.operator_content_table == o.operator_content_table
        &&& t.coerce_content_table == o.coerce_content_table
        &&& t.generic_param_description_table == o.generic_param_description_table
        &&& t.shape_description_context_table == o.shape_description_context_table
        &&& t.function_description_table == o.function_description_table
        &&& t.function_description_context_table == o.function_description_context_table
        &&& t.closure_description_table == o.closure_description_table
        &&& t.in_closure_description_context_table == o.in_closure_description_context_table
        &&& t.computable_shape_table == o.computable_shape_table
        &&& self.gsc_summary.shape_content_heads == old.gsc_summary.shape_content_heads
        &&& self.gsc_summary.operation_content_heads == old.gsc_summary.operation_content_heads
        &&& self.gsc_summary.bind_content_heads == old.gsc_summary.bind_content_heads
        &&& self.gsc_summary.operator_content_heads == old.gsc_summary.operator_content_heads
        &&& self.gsc_summary.coerce_content_heads == old.gsc_summary.coerce_content_heads
        &&& self.gsc_summary.computable_shape_table == old.gsc_summary.computable_shape_table
        &&& self.gsc_summary.ecs_key_table == old.gsc_summary.ecs_key_table
        &&& self.gsc_summary.sub_shape_table_buffer == old.gsc_summary.sub_shape_table_buffer
        &&& self.gsc_summary.bind_name_table == old.gsc_summary.bind_name_table
        &&& self.gsc_summary.graph == old.gsc_summary.graph
        &&& self.gsc_summary.errors == old.gsc_summary.errors
    }

    /// Whether only the subshape questions differ from `old`.
    pub open spec fn same_but_answers(&self, old: Self) -> bool {
        &&& self.grand_module_skeleton_table == old.grand_module_skeleton_table
        &&& self.grand_module_merge_table == old.grand_module_merge_table
        &&& self.gsc_summary.kv_tables == old.gsc_summary.kv_tables
        &&& self.gsc_summary.shape_content_heads == old.gsc_summary.shape_content_heads
        &&& self.gsc_summary.operation_content_heads == old.gsc_summary.operation_content_heads
        &&& self.gsc_summary.bind_content_heads == old.gsc_summary.bind_content_heads
        &&& self.gsc_summary.operator_content_heads == old.gsc_summary.operator_content_heads
        &&& self.gsc_summary.coerce_content_heads == old.gsc_summary.coerce_content_heads
        &&& self.gsc_summary.computable_shape_table == old.gsc_summary.computable_shape_table
        &&& self.gsc_summary.ecs_key_table == old.gsc_summary.ecs_key_table
        &&& self.gsc_summary.bind_name_table == old.gsc_summary.bind_name_table
        &&& self.gsc_summary.graph == old.gsc_summary.graph
        &&& self.gsc_summary.errors == old.gsc_summary.errors
    }

    /// The pairs of the subshape questions assumed so far.
    pub open spec fn assumed_pairs(&self) -> Set<(usize, usize)> {
        pairs(&self.gsc_summary.sub_shape_table_buffer.assumption)
    }

    /// Assumes `subset` is a subshape of `superset` while that is decided.
    pub fn add_assumption(&mut self, subset: ComputableShapeKey, superset: ComputableShapeKey)
        ensures
            final(self).same_but_answers(*old(self)),
            final(self).assumed_pairs() == old(self).assumed_pairs().insert((subset.0, superset.0)),
            forall|k: usize| #[trigger] final(self).gsc_summary.sub_shape_table_buffer.assumption.has(k)
                == (old(self).gsc_summary.sub_shape_table_buffer.assumption.has(k) || k == superset.0),
            final(self).gsc_summary.sub_shape_table_buffer.proven_true == old(self).gsc_summary.sub_shape_table_buffer.proven_true,
            final(self).gsc_summary.sub_shape_table_buffer.proven_false == old(self).gsc_summary.sub_shape_table_buffer.proven_false,
            final(self).gsc_summary.sub_shape_table_buffer.proven_stuck == old(self).gsc_summary.sub_shape_table_buffer.proven_stuck,
            final(self).gsc_summary.sub_shape_table_buffer.proven_overcost == old(self).gsc_summary.sub_shape_table_buffer.proven_overcost,
    {
        add_pair(&mut self.gsc_summary.sub_shape_table_buffer.assumption, subset, superset);
    }

    /// Drops the assumption that `subset` is a subshape of `superset`:
    /// `Some` where some assumption about `superset` was ever recorded.
    pub fn remove_assumption(&mut self, subset: &ComputableShapeKey, superset: &ComputableShapeKey) -> (res: Option<()>)
        ensures
            final(self).same_but_answers(*old(self)),
            res is Some == old(self).gsc_summary.sub_shape_table_buffer.assumption.has(superset.0),
            res is Some ==> final(self).assumed_pairs() == old(self).assumed_pairs().remove((subset.0, superset.0)),
            res is None ==> final(self).assumed_pairs() == old(self).assumed_pairs(),
            forall|k: usize| #[trigger] final(self).gsc_summary.sub_shape_table_buffer.assumption.has(k)
                == old(self).gsc_summary.sub_shape_table_buffer.assumption.has(k),
            final(self).gsc_summary.sub_shape_table_buffer.proven_true == old(self).gsc_summary.sub_shape_table_buffer.proven_true,
            final(self).gsc_summary.sub_shape_table_buffer.proven_false == old(self).gsc_summary.sub_shape_table_buffer.proven_false,
            final(self).gsc_summary.sub_shape_table_buffer.proven_stuck == old(self).gsc_summary.sub_shape_table_buffer.proven_stuck,
            final(self).gsc_summary.sub_shape_table_buffer.proven_overcost == old(self).gsc_summary.sub_shape_table_buffer.proven_overcost,
    {
        remove_pair(&mut self.gsc_summary.sub_shape_table_buffer.assumption, subset, superset)
    }

    /// Records that whether `subset` is a subshape of `superset` came out
    /// yes, and drops the assumption about it; nothing changes where no
    /// assumption about `superset` was ever recorded.
    pub fn proven_true(&mut self, subset: ComputableShapeKey, superset: ComputableShapeKey)
        ensures
            final(self).same_but_answers(*old(self)),
            forall|k: usize| #[trigger] final(self).gsc_summary.sub_shape_table_buffer.assumption.has(k)
                == old(self).gsc_summary.sub_shape_table_buffer.assumption.has(k),
            old(self).gsc_summary.sub_shape_table_buffer.assumption.has(superset.0) ==> {
                &&& final(self).assumed_pairs() == old(self).assumed_pairs().remove((subset.0, superset.0))
                &&& pairs(&final(self).gsc_summary.sub_shape_table_buffer.proven_true)
                    == pairs(&old(self).gsc_summary.sub_shape_table_buffer.proven_true).insert((subset.0, superset.0))
            },
            !old(self).gsc_summary.sub_shape_table_buffer.assumption.has(superset.0) ==> {
                &&& final(self).assumed_pairs() == old(self).assumed_pairs()
                &&& final(self).gsc_summary.sub_shape_table_buffer.proven_true == old(self).gsc_summary.sub_shape_table_buffer.proven_true
            },
            final(self).gsc_summary.sub_shape_table_buffer.proven_false == old(self).gsc_summary.sub_shape_table_buffer.proven_false,
            final(self).gsc_summary.sub_shape_table_buffer.proven_stuck == old(self).gsc_summary.sub_shape_table_buffer.proven_stuck,
            final(self).gsc_summary.sub_shape_table_buffer.proven_overcost == old(self).gsc_summary.sub_shape_table_buffer.proven_overcost,
    {
        match self.remove_assumption(&subset, &superset) {
            Some(_) => {
                add_pair(&mut self.gsc_summary.sub_shape_table_buffer.proven_true, subset, superset);
            },
            None => {},
        }
    }

    /// Records that whether `subset` is a subshape of `superset` came out
    /// no, and drops the assumption about it; nothing changes where no
    /// assumption about `superset` was ever recorded.
    pub fn proven_false(&mut self, subset: ComputableShapeKey, superset: ComputableShapeKey)
        ensures
            final(self).same_but_answers(*old(self)),
            forall|k: usize| #[trigger] final(self).gsc_summary.sub_shape_table_buffer.assumption.has(k)
                == old(self).gsc_summary.sub_shape_table_buffer.assumption.has(k),
            old(self).gsc_summary.sub_shape_table_buffer.assumption.has(superset.0) ==> {
                &&& final(self).assumed_pairs() == old(self).assumed_pairs().remove((subset.0, superset.0))
                &&& pairs(&final(self).gsc_summary.sub_shape_table_buffer.proven_false)
                    == pairs(&old(self).gsc_summary.sub_shape_table_buffer.proven_false).insert((subset.0, superset.0))
            },
            !old(self).gsc_summary.sub_shape_table_buffer.assumption.has(superset.0) ==> {
                &&& final(self).assumed_pairs() == old(self).assumed_pairs()
                &&& final(self).gsc_summary.sub_shape_table_buffer.proven_false == old(self).gsc_summary.sub_shape_table_buffer.proven_false
            },
            final(self).gsc_summary.sub_shape_table_buffer.proven_true == old(self).gsc_summary.sub_shape_table_buffer.proven_true,
            final(self).gsc_summary.sub_shape_table_buffer.proven_stuck == old(self).gsc_summary.sub_shape_table_buffer.proven_stuck,
            final(self).gsc_summary.sub_shape_table_buffer.proven_overcost == old(self).gsc_summary.sub_shape_table_buffer.proven_overcost,
    {
        match self.remove_assumption(&subset, &superset) {
            Some(_) => {
                add_pair(&mut self.gsc_summary.sub_shape_table_buffer.proven_false, subset, superset);
            },
            None => {},
        }
    }

    /// Records that whether `subset` is a subshape of `superset` came out
    /// undecidable, and drops the assumption about it; nothing changes where no
    /// assumption about `superset` was ever recorded.
    pub fn proven_stuck(&mut self, subset: ComputableShapeKey, superset: ComputableShapeKey)
        ensures
            final(self).same_but_answers(*old(self)),
            forall|k: usize| #[trigger] final(self).gsc_summary.sub_shape_table_buffer.assumption.has(k)
                == old(self).gsc_summary.sub_shape_table_buffer.assumption.has(k),
            old(self).gsc_summary.sub_shape_table_buffer.assumption.has(superset.0) ==> {
                &&& final(self).assumed_pairs() == old(self).assumed_pairs().remove((subset.0, superset.0))
                &&& pairs(&final(self).gsc_summary.sub_shape_table_buffer.proven_stuck)
                    == pairs(&old(self).gsc_summary.sub_shape_table_buffer.proven_stuck).insert((subset.0, superset.0))
            },
            !old(self).gsc_summary.sub_shape_table_buffer.assumption.has(superset.0) ==> {
                &&& final(self).assumed_pairs() == old(self).assumed_pairs()
                &&& final(self).gsc_summary.sub_shape_table_buffer.proven_stuck == old(self).gsc_summary.sub_shape_table_buffer.proven_stuck
            },
            final(self).gsc_summary.sub_shape_table_buffer.proven_true == old(self).gsc_summary.sub_shape_table_buffer.proven_true,
            final(self).gsc_summary.sub_shape_table_buffer.proven_false == old(self).gsc_summary.sub_shape_table_buffer.proven_false,
            final(self).gsc_summary.sub_shape_table_buffer.proven_overcost == old(self).gsc_summary.sub_shape_table_buffer.proven_overcost,
    {
        match self.remove_assumption(&subset, &superset) {
            Some(_) => {
                add_pair(&mut self.gsc_summary.sub_shape_table_buffer.proven_stuck, subset, superset);
            },
            None => {},
        }
    }

    /// Records that whether `subset` is a subshape of `superset` came out
    /// too costly, and drops the assumption about it; nothing changes where no
    /// assumption about `superset` was ever recorded.
    pub fn proven_overcost(&mut self, subset: ComputableShapeKey, superset: ComputableShapeKey)
        ensures
            final(self).same_but_answers(*old(self)),
            forall|k: usize| #[trigger] final(self).gsc_summary.sub_shape_table_buffer.assumption.has(k)
                == old(self).gsc_summary.sub_shape_table_buffer.assumption.has(k),
            old(self).gsc_summary.sub_shape_table_buffer.assumption.has(superset.0) ==> {
                &&& final(self).assumed_pairs() == old(self).assumed_pairs().remove((subset.0, superset.0))
                &&& pairs(&final(self).gsc_summary.sub_shape_table_buffer.proven_overcost)
                    == pairs(&old(self).gsc_summary.sub_shape_table_buffer.proven_overcost).insert((subset.0, superset.0))
            },
            !old(self).gsc_summary.sub_shape_table_buffer.assumption.has(superset.0) ==> {
                &&& final(self).assumed_pairs() == old(self).assumed_pairs()
                &&& final(self).gsc_summary.sub_shape_table_buffer.proven_overcost == old(self).gsc_summary.sub_shape_table_buffer.proven_overcost
            },
            final(self).gsc_summary.sub_shape_table_buffer.proven_true == old(self).gsc_summary.sub_shape_table_buffer.proven_true,
            final(self).gsc_summary.sub_shape_table_buffer.proven_false == old(self).gsc_summary.sub_shape_table_buffer.proven_false,
            final(self).gsc_summary.sub_shape_table_buffer.proven_stuck == old(self).gsc_summary.sub_shape_table_buffer.proven_stuck,
    {
        match self.remove_assumption(&subset, &superset) {
            Some(_) => {
                add_pair(&mut self.gsc_summary.sub_shape_table_buffer.proven_overcost, subset, superset);
            },
            None => {},
        }
    }

    /// Whether `subset` is assumed to be a subshape of `superset`.
    pub fn is_assumed(&mut self, subset: &ComputableShapeKey, superset: &ComputableShapeKey) -> (res: bool)
        ensures
            res == old(self).assumed_pairs().contains((subset.0, superset.0)),
            *final(self) == *old(self),
    {
        has_pair(&self.gsc_summary.sub_shape_table_buffer.assumption, subset, superset)
    }

    /// Whether `subset` was found to be a subshape of `superset` with the
    /// answer yes.
    pub fn is_proven_true(&self, subset: &ComputableShapeKey, superset: &ComputableShapeKey) -> (res: bool)
        ensures
            res == pairs(&self.gsc_summary.sub_shape_table_buffer.proven_true).contains((subset.0, superset.0)),
    {
        has_pair(&self.gsc_summary.sub_shape_table_buffer.proven_true, subset, superset)
    }

    /// Whether `subset` was found to be a subshape of `superset` with the
    /// answer no.
    pub fn is_proven_false(&self, subset: &ComputableShapeKey, superset: &ComputableShapeKey) -> (res: bool)
        ensures
            res == pairs(&self.gsc_summary.sub_shape_table_buffer.proven_false).contains((subset.0, superset.0)),
    {
        has_pair(&self.gsc_summary.sub_shape_table_buffer.proven_false, subset, superset)
    }

    /// Whether `subset` was found to be a subshape of `superset` with the
    /// answer undecidable.
    pub fn is_proven_stuck(&self, subset: &ComputableShapeKey, superset: &ComputableShapeKey) -> (res: bool)
        ensures
            res == pairs(&self.gsc_summary.sub_shape_table_buffer.proven_stuck).contains((subset.0, superset.0)),
    {
        has_pair(&self.gsc_summary.sub_shape_table_buffer.proven_stuck, subset, superset)
    }

    /// Whether `subset` was found to be a subshape of `superset` with the
    /// answer too costly.
    pub fn is_proven_overcost(&self, subset: &ComputableShapeKey, superset: &ComputableShapeKey) -> (res: bool)
        ensures
            res == pairs(&self.gsc_summary.sub_shape_table_buffer.proven_overcost).contains((subset.0, superset.0)),
    {
        has_pair(&self.gsc_summary.sub_shape_table_buffer.proven_overcost, subset, superset)
    }

    /// Whether `subset` was found to be, or is assumed to be, a subshape of
    /// `superset`.
    pub fn is_proven_true_or_assumed(&self, subset: &ComputableShapeKey, superset: &ComputableShapeKey) -> (res: bool)
        ensures
            res == (pairs(&self.gsc_summary.sub_shape_table_buffer.proven_true).contains((subset.0, superset.0))
                || self.assumed_pairs().contains((subset.0, superset.0))),
    {
        has_pair(&self.gsc_summary.sub_shape_table_buffer.proven_true, subset, superset)
            || has_pair(&self.gsc_summary.sub_shape_table_buffer.assumption, subset, superset)
    }

    /// The recorded answer to whether `subset` is a subshape of `superset`:
    /// yes (found or assumed) first, then no, undecidable, too costly;
    /// `None` where nothing is recorded.
    pub fn find_proven_result_or_assumed(&self, subset: &ComputableShapeKey, superset: &ComputableShapeKey) -> (res: Option<IsSubShapeResult>)
        ensures
            ({
                let p = (subset.0, superset.0);
                let b = self.gsc_summary.sub_shape_table_buffer;
                res == if pairs(&b.proven_true).contains(p) || self.assumed_pairs().contains(p) {
                    Some(IsSubShapeResult::True)
                } else if pairs(&b.proven_false).contains(p) {
                    Some(IsSubShapeResult::False)
                } else if pairs(&b.proven_stuck).contains(p) {
                    Some(IsSubShapeResult::Stuck)
                } else if pairs(&b.proven_overcost).contains(p) {
                    Some(IsSubShapeResult::OverCost)
                } else {
                    None
                }
            }),
    {
        if self.is_proven_true_or_assumed(subset, superset) {
            Some(IsSubShapeResult::True)
        } else if self.is_proven_false(subset, superset) {
            Some(IsSubShapeResult::False)
        } else if self.is_proven_stuck(subset, superset) {
            Some(IsSubShapeResult::Stuck)
        } else if self.is_proven_overcost(subset, superset) {
            Some(IsSubShapeResult::OverCost)
        } else {
            None
        }
    }
}


/// A map of keys to indices with one more entry.
fn put_index<K: KeyView, I>(m: &mut KeyedMap<K, I>, k: K, v: I)
    ensures
        final(m).as_map() == old(m).as_map().insert(k@, v),
{
    m.insert(k, v);
}

/// A map of keys to lists of indices with one more index at the end of the
/// list of `k` (a new list where `k` has none).
fn push_index<K: KeyView, I>(m: &mut KeyedMap<K, Vec<I>>, k: K, v: I)
    ensures
        final(m).as_map().dom() == old(m).as_map().dom().insert(k@),
        forall|x: K::V| x != k@ && old(m).has(x) ==> #[trigger] final(m).as_map()[x] == old(m).as_map()[x],
        final(m).as_map()[k@]@ == if old(m).has(k@) { old(m).at(k@)@ } else { Seq::<I>::empty() }.push(v),
{
    let ghost kv = k@;
    proof {
        if old(m).has(kv) {
            assert(old(m).as_map()[kv] == old(m).at(kv));
        }
    }
    let mut list = match m.remove(&k) {
        Some(l) => l,
        None => Vec::new(),
    };
    let ghost mid = *m;
    list.push(v);
    m.insert(k, list);
    proof {
        assert forall|x: K::V| #[trigger] m.as_map().dom().contains(x) == old(m).as_map().dom().insert(kv).contains(x) by {
            assert(mid.as_map().dom().contains(x) == mid.has(x));
            assert(old(m).as_map().dom().contains(x) == old(m).has(x));
        }
        assert(m.as_map().dom() =~= old(m).as_map().dom().insert(kv));
        assert forall|x: K::V| x != kv && old(m).has(x) implies #[trigger] m.as_map()[x] == old(m).as_map()[x] by {
            assert(mid.as_map().dom().contains(x) == mid.has(x));
            assert(mid.as_map()[x] == mid.at(x));
            assert(old(m).as_map()[x] == old(m).at(x));
        }
    }
}

impl GrandShapeContentSummary {
    /// Nothing resolved yet: every table empty, and an empty table of binds
    /// by name for each elementary shape that has a core type name.
    pub fn new_empty() -> (res: Self)
        ensures
            res.shape_content_heads.size() == 0,
            res.operation_content_heads.size() == 0,
            res.bind_content_heads.size() == 0,
            res.operator_content_heads.size() == 0,
            res.coerce_content_heads.size() == 0,
            res.computable_shape_table.size() == 0,
            res.ecs_key_table.size() == 0,
            res.kv_tables.computable_shape_table@.len() == 0,
            pairs(&res.sub_shape_table_buffer.proven_true) == Set::<(usize, usize)>::empty(),
            pairs(&res.sub_shape_table_buffer.proven_false) == Set::<(usize, usize)>::empty(),
            pairs(&res.sub_shape_table_buffer.proven_stuck) == Set::<(usize, usize)>::empty(),
            pairs(&res.sub_shape_table_buffer.proven_overcost) == Set::<(usize, usize)>::empty(),
            pairs(&res.sub_shape_table_buffer.assumption) == Set::<(usize, usize)>::empty(),
            res.sub_shape_table_buffer.assumption.as_map().dom() == Set::<usize>::empty(),
            forall|k: ShapeHeadView| res.bind_name_table.has(k) <==> exists|i: int| 0 <= i < core_types().len()
                && k == ShapeHeadView::Prelude(#[trigger] core_types()[i]),
            forall|k: ShapeHeadView| res.bind_name_table.has(k) ==> #[trigger] res.bind_name_table.at(k).size() == 0,
            res.errors@.len() == 0,
    {
        let shapes = core_type_list();
        let mut bind_name_table: KeyedMap<ShapeContentHeadKey, KeyedMap<String, Vec<BindContentHeadKey>>> = KeyedMap::new();
        let mut i: usize = 0;
        while i < shapes.len()
            invariant
                shapes@ == core_types(),
                i <= shapes@.len(),
                forall|k: ShapeHeadView| bind_name_table.has(k) <==> exists|j: int| 0 <= j < i
                    && k == ShapeHeadView::Prelude(#[trigger] core_types()[j]),
                forall|k: ShapeHeadView| bind_name_table.has(k) ==> #[trigger] bind_name_table.at(k).size() == 0,
            decreases shapes.len() - i,
        {
            let ghost before = bind_name_table;
            let empty: KeyedMap<String, Vec<BindContentHeadKey>> = KeyedMap::new();
            bind_name_table.insert(ShapeContentHeadKey::Prelude(shapes[i]), empty);
            proof {
                assert forall|k: ShapeHeadView| bind_name_table.has(k) <==> exists|j: int| 0 <= j < i + 1
                    && k == ShapeHeadView::Prelude(#[trigger] core_types()[j]) by {
                    if bind_name_table.has(k) && k != ShapeHeadView::Prelude(core_types()[i as int]) {
                        assert(before.has(k));
                    }
                    if k == ShapeHeadView::Prelude(core_types()[i as int]) {
                        assert(bind_name_table.has(k));
                    }
                }
            }
            i = i + 1;
        }
        Self {
            kv_tables: KVTables::new(),
            shape_content_heads: KeyedMap::new(),
            operation_content_heads: KeyedMap::new(),
            bind_content_heads: KeyedMap::new(),
            operator_content_heads: KeyedMap::new(),
            coerce_content_heads: KeyedMap::new(),
            computable_shape_table: KeyedMap::new(),
            ecs_key_table: KeyedMap::new(),
            sub_shape_table_buffer: SubShapeTableBuffer::new(),
            bind_name_table,
            graph: ShapeGraph::new(),
            errors: Vec::new(),
        }
    }
}

impl<'a> GrandShapeContentSummaryAtWork<'a> {
    /// Stores the contents of a shape and records them under `shape_key`.
    pub fn new_shape_content_head(&mut self, shape_key: ShapeContentHeadKey, shape_content: ShapeContent)
        requires
            old(self).gsc_summary.kv_tables.shape_content_table@.len() < usize::MAX,
        ensures
            final(self).gsc_summary.kv_tables.shape_content_table@
                == old(self).gsc_summary.kv_tables.shape_content_table@.push(shape_content),
            final(self).gsc_summary.shape_content_heads.as_map() == old(self).gsc_summary.shape_content_heads.as_map().insert(
                shape_key@,
                ShapeContentKey(old(self).gsc_summary.kv_tables.shape_content_table@.len() as usize),
            ),
            final(self).grand_module_skeleton_table == old(self).grand_module_skeleton_table,
            final(self).grand_module_merge_table == old(self).grand_module_merge_table,
            final(self).gsc_summary == (GrandShapeContentSummary {
                kv_tables: KVTables {
                    shape_content_table: final(self).gsc_summary.kv_tables.shape_content_table,
                    ..old(self).gsc_summary.kv_tables
                },
                shape_content_heads: final(self).gsc_summary.shape_content_heads,
                ..old(self).gsc_summary
            }),
    {
        self.gsc_summary.kv_tables.shape_content_table.push(shape_content);
        let key = ShapeContentKey(self.gsc_summary.kv_tables.shape_content_table.len() - 1);
        put_index(&mut self.gsc_summary.shape_content_heads, shape_key, key);
    }

    /// Stores the contents of an operation and records them under
    /// `operation_key`.
    pub fn new_operation_content_head(&mut self, operation_key: OperationContentHeadKey, operation_content: OperationContent)
        requires
            old(self).gsc_summary.kv_tables.operation_content_table@.len() < usize::MAX,
        ensures
            final(self).gsc_summary.kv_tables.operation_content_table@
                == old(self).gsc_summary.kv_tables.operation_content_table@.push(operation_content),
            final(self).gsc_summary.operation_content_heads.as_map() == old(self).gsc_summary.operation_content_heads.as_map().insert(
                operation_key@,
                OperationContentKey(old(self).gsc_summary.kv_tables.operation_content_table@.len() as usize),
            ),
            final(self).grand_module_skeleton_table == old(self).grand_module_skeleton_table,
            final(self).grand_module_merge_table == old(self).grand_module_merge_table,
            final(self).gsc_summary == (GrandShapeContentSummary {
                kv_tables: KVTables {
                    operation_content_table: final(self).gsc_summary.kv_tables.operation_content_table,
                    ..old(self).gsc_summary.kv_tables
                },
                operation_content_heads: final(self).gsc_summary.operation_content_heads,
                ..old(self).gsc_summary
            }),
    {
        self.gsc_summary.kv_tables.operation_content_table.push(operation_content);
        let key = OperationContentKey(self.gsc_summary.kv_tables.operation_content_table.len() - 1);
        put_index(&mut self.gsc_summary.operation_content_heads, operation_key, key);
    }

    /// Stores the contents of a bind and records them under `bind_key`.
    pub fn new_bind_content_head(&mut self, bind_key: BindContentHeadKey, bind_content: BindContent)
        requires
            old(self).gsc_summary.kv_tables.bind_content_table@.len() < usize::MAX,
        ensures
            final(self).gsc_summary.kv_tables.bind_content_table@
                == old(self).gsc_summary.kv_tables.bind_content_table@.push(bind_content),
            final(self).gsc_summary.bind_content_heads.as_map() == old(self).gsc_summary.bind_content_heads.as_map().insert(
                bind_key@,
                BindContentKey(old(self).gsc_summary.kv_tables.bind_content_table@.len() as usize),
            ),
    {
        self.gsc_summary.kv_tables.bind_content_table.push(bind_content);
        let key = BindContentKey(self.gsc_summary.kv_tables.bind_content_table.len() - 1);
        put_index(&mut self.gsc_summary.bind_content_heads, bind_key, key);
    }

    /// Stores the contents of an operator overload and adds them to those
    /// recorded under `operator_key`.
    pub fn insert_operator_content_head(&mut self, operator_key: OperatorContentHeadKey, operator_content: OperatorContent)
        requires
            old(self).gsc_summary.kv_tables.operator_content_table@.len() < usize::MAX,
        ensures
            final(self).gsc_summary.kv_tables.operator_content_table@
                == old(self).gsc_summary.kv_tables.operator_content_table@.push(operator_content),
            final(self).gsc_summary.operator_content_heads.as_map().dom()
                == old(self).gsc_summary.operator_content_heads.as_map().dom().insert(operator_key@),
            forall|x: OperatorHeadView| x != operator_key@ && old(self).gsc_summary.operator_content_heads.has(x)
                ==> #[trigger] final(self).gsc_summary.operator_content_heads.as_map()[x]
                == old(self).gsc_summary.operator_content_heads.as_map()[x],
            final(self).gsc_summary.operator_content_heads.as_map()[operator_key@]@ == if old(self).gsc_summary.operator_content_heads.has(
                operator_key@,
            ) {
                old(self).gsc_summary.operator_content_heads.at(operator_key@)@
            } else {
                Seq::<OperatorContentKey>::empty()
            }.push(OperatorContentKey(old(self).gsc_summary.kv_tables.operator_content_table@.len() as usize)),
    {
        self.gsc_summary.kv_tables.operator_content_table.push(operator_content);
        let key = OperatorContentKey(self.gsc_summary.kv_tables.operator_content_table.len() - 1);
        push_index(&mut self.gsc_summary.operator_content_heads, operator_key, key);
    }

    /// Stores the contents of a coercion and adds them to those recorded
    /// under `coerce_key`.
    pub fn insert_coerce_content_head(&mut self, coerce_key: CoerceContentHeadKey, coerce_content: CoerceContent)
        requires
            old(self).gsc_summary.kv_tables.coerce_content_table@.len() < usize::MAX,
        ensures
            final(self).gsc_summary.kv_tables.coerce_content_table@
                == old(self).gsc_summary.kv_tables.coerce_content_table@.push(coerce_content),
            final(self).gsc_summary.coerce_content_heads.as_map().dom()
                == old(self).gsc_summary.coerce_content_heads.as_map().dom().insert(coerce_key@),
            forall|x: (ShapeHeadView, ShapeHeadView)| x != coerce_key@ && old(self).gsc_summary.coerce_content_heads.has(x)
                ==> #[trigger] final(self).gsc_summary.coerce_content_heads.as_map()[x]
                == old(self).gsc_summary.coerce_content_heads.as_map()[x],
            final(self).gsc_summary.coerce_content_heads.as_map()[coerce_key@]@ == if old(self).gsc_summary.coerce_content_heads.has(
                coerce_key@,
            ) {
                old(self).gsc_summary.coerce_content_heads.at(coerce_key@)@
            } else {
                Seq::<CoerceContentKey>::empty()
            }.push(CoerceContentKey(old(self).gsc_summary.kv_tables.coerce_content_table@.len() as usize)),
    {
        self.gsc_summary.kv_tables.coerce_content_table.push(coerce_content);
        let key = CoerceContentKey(self.gsc_summary.kv_tables.coerce_content_table.len() - 1);
        push_index(&mut self.gsc_summary.coerce_content_heads, coerce_key, key);
    }

    /// The contents of the shape recorded under `shape_key`.
    pub fn get_shape_content_head(&mut self, shape_key: &ShapeContentHeadKey) -> (res: &ShapeContent)
        requires
            old(self).gsc_summary.shape_content_heads.has(shape_key@),
            old(self).gsc_summary.shape_content_heads.at(shape_key@).0 < old(self).gsc_summary.kv_tables.shape_content_table@.len(),
        ensures
            *res == old(self).gsc_summary.kv_tables.shape_content_table@[old(self).gsc_summary.shape_content_heads.at(
                shape_key@,
            ).0 as int],
    {
        let key = *self.gsc_summary.shape_content_heads.get(shape_key).unwrap();
        self.get_shape_content(key)
    }

    /// The contents of the operation recorded under `operation_key`.
    pub fn get_operation_content_head(&mut self, operation_key: &OperationContentHeadKey) -> (res: &OperationContent)
        requires
            old(self).gsc_summary.operation_content_heads.has(operation_key@),
            old(self).gsc_summary.operation_content_heads.at(operation_key@).0
                < old(self).gsc_summary.kv_tables.operation_content_table@.len(),
        ensures
            *res == old(self).gsc_summary.kv_tables.operation_content_table@[old(self).gsc_summary.operation_content_heads.at(
                operation_key@,
            ).0 as int],
    {
        let key = *self.gsc_summary.operation_content_heads.get(operation_key).unwrap();
        self.get_operation_content(key)
    }

    /// The contents of the bind recorded under `bind_key`.
    pub fn get_bind_content_head(&mut self, bind_key: &BindContentHeadKey) -> (res: &BindContent)
        requires
            old(self).gsc_summary.bind_content_heads.has(bind_key@),
            old(self).gsc_summary.bind_content_heads.at(bind_key@).0 < old(self).gsc_summary.kv_tables.bind_content_table@.len(),
        ensures
            *res == old(self).gsc_summary.kv_tables.bind_content_table@[old(self).gsc_summary.bind_content_heads.at(
                bind_key@,
            ).0 as int],
    {
        let key = *self.gsc_summary.bind_content_heads.get(bind_key).unwrap();
        self.get_bind_content(key)
    }

    /// The contents of every operator overload recorded under
    /// `operator_key`, in the order they were recorded.
    pub fn get_operator_content_head(&mut self, operator_key: &OperatorContentHeadKey) -> (res: Vec<&OperatorContent>)
        requires
            old(self).gsc_summary.operator_content_heads.has(operator_key@),
            forall|i: int| 0 <= i < old(self).gsc_summary.operator_content_heads.at(operator_key@)@.len()
                ==> (#[trigger] old(self).gsc_summary.operator_content_heads.at(operator_key@)@[i]).0
                < old(self).gsc_summary.kv_tables.operator_content_table@.len(),
        ensures
            ({
                let keys = old(self).gsc_summary.operator_content_heads.at(operator_key@)@;
                &&& res@.len() == keys.len()
                &&& forall|i: int| 0 <= i < keys.len() ==> *(#[trigger] res@[i])
                    == old(self).gsc_summary.kv_tables.operator_content_table@[keys[i].0 as int]
            }),
    {
        let keys = self.gsc_summary.operator_content_heads.get(operator_key).unwrap();
        let mut res: Vec<&OperatorContent> = Vec::new();
        let mut i: usize = 0;
        while i < keys.len()
            invariant
                i <= keys@.len(),
                res@.len() == i,
                forall|j: int| 0 <= j < keys@.len() ==> (#[trigger] keys@[j]).0 < self.gsc_summary.kv_tables.operator_content_table@.len(),
                forall|j: int| 0 <= j < i ==> *(#[trigger] res@[j]) == self.gsc_summary.kv_tables.operator_content_table@[keys@[j].0 as int],
            decreases keys.len() - i,
        {
            res.push(self.get_operator_content(keys[i]));
            i = i + 1;
        }
        res
    }

    /// The contents of every coercion recorded under `coerce_key`, in the
    /// order they were recorded.
    pub fn get_coerce_content_head(&mut self, coerce_key: &CoerceContentHeadKey) -> (res: Vec<&CoerceContent>)
        requires
            old(self).gsc_summary.coerce_content_heads.has(coerce_key@),
            forall|i: int| 0 <= i < old(self).gsc_summary.coerce_content_heads.at(coerce_key@)@.len()
                ==> (#[trigger] old(self).gsc_summary.coerce_content_heads.at(coerce_key@)@[i]).0
                < old(self).gsc_summary.kv_tables.coerce_content_table@.len(),
        ensures
            ({
                let keys = old(self).gsc_summary.coerce_content_heads.at(coerce_key@)@;
                &&& res@.len() == keys.len()
                &&& forall|i: int| 0 <= i < keys.len() ==> *(#[trigger] res@[i])
                    == old(self).gsc_summary.kv_tables.coerce_content_table@[keys[i].0 as int]
            }),
    {
        let keys = self.gsc_summary.coerce_content_heads.get(coerce_key).unwrap();
        let mut res: Vec<&CoerceContent> = Vec::new();
        let mut i: usize = 0;
        while i < keys.len()
            invariant
                i <= keys@.len(),
                res@.len() == i,
                forall|j: int| 0 <= j < keys@.len() ==> (#[trigger] keys@[j]).0 < self.gsc_summary.kv_tables.coerce_content_table@.len(),
                forall|j: int| 0 <= j < i ==> *(#[trigger] res@[j]) == self.gsc_summary.kv_tables.coerce_content_table@[keys@[j].0 as int],
            decreases keys.len() - i,
        {
            res.push(self.get_coerce_content(keys[i]));
            i = i + 1;
        }
        res
    }

    /// Whether the description `shape_key` has its computable shape already.
    pub fn has_simple_shape(&mut self, shape_key: &ShapeDescriptionKey) -> (res: bool)
        ensures
            res == old(self).gsc_summary.computable_shape_table.has(shape_key.0),
            *final(self) == *old(self),
    {
        self.gsc_summary.computable_shape_table.contains_key(shape_key)
    }

    /// Stores a computable shape for each elementary shape that has a core
    /// type name, in the order the names are listed, and makes the table of
    /// elementary shapes map each to its key.
    pub fn generate_ecs_key_table(&mut self)
        requires
            old(self).gsc_summary.kv_tables.computable_shape_table@.len() + core_types().len() < usize::MAX,
        ensures
            ({
                let n = old(self).gsc_summary.kv_tables.computable_shape_table@.len();
                let t = final(self).gsc_summary.kv_tables.computable_shape_table@;
                &&& t.len() == n + core_types().len()
                &&& t.take(n as int) == old(self).gsc_summary.kv_tables.computable_shape_table@
                &&& forall|i: int| 0 <= i < core_types().len() ==> {
                    &&& #[trigger] t[n + i].position is None
                    &&& t[n + i].gut matches ComputableShapeGut::Elementary(e) && e.gut == core_types()[i] && e.position is None
                    &&& final(self).gsc_summary.ecs_key_table.has(core_types()[i])
                    &&& final(self).gsc_summary.ecs_key_table.at(core_types()[i]).0 == n + i
                }
                &&& forall|s: ElementaryShape| #[trigger] final(self).gsc_summary.ecs_key_table.has(s) ==> core_types().contains(s)
            }),
            final(self).grand_module_skeleton_table == old(self).grand_module_skeleton_table,
            final(self).gsc_summary.sub_shape_table_buffer == old(self).gsc_summary.sub_shape_table_buffer,
    {
        let shapes = core_type_list();
        let ghost n = self.gsc_summary.kv_tables.computable_shape_table@.len();
        let ghost t0 = self.gsc_summary.kv_tables.computable_shape_table@;
        let mut table: KeyedMap<ElementaryShape, ComputableShapeKey> = KeyedMap::new();
        let mut i: usize = 0;
        while i < shapes.len()
            invariant
                shapes@ == core_types(),
                i <= shapes@.len(),
                n + core_types().len() < usize::MAX,
                self.gsc_summary.kv_tables.computable_shape_table@.len() == n + i,
                self.gsc_summary.kv_tables.computable_shape_table@.take(n as int) == t0,
                forall|j: int| 0 <= j < i ==> {
                    &&& #[trigger] self.gsc_summary.kv_tables.computable_shape_table@[n + j].position is None
                    &&& self.gsc_summary.kv_tables.computable_shape_table@[n + j].gut matches ComputableShapeGut::Elementary(e)
                        && e.gut == core_types()[j] && e.position is None
                },
                forall|s: ElementaryShape| #[trigger] table.has(s) <==> exists|j: int| 0 <= j < i && core_types()[j] == s,
                forall|j: int| 0 <= j < i ==> #[trigger] table.at(core_types()[j]).0 == n + j,
                core_types().no_duplicates(),
                self.grand_module_skeleton_table == old(self).grand_module_skeleton_table,
                self.gsc_summary.sub_shape_table_buffer == old(self).gsc_summary.sub_shape_table_buffer,
            decreases shapes.len() - i,
        {
            let shape = shapes[i];
            let ghost before = self.gsc_summary.kv_tables.computable_shape_table@;
            self.gsc_summary.kv_tables.computable_shape_table.push(ComputableShape {
                gut: ComputableShapeGut::Elementary(ElementaryPShape { gut: shape, position: None }),
                position: None,
            });
            let key = ComputableShapeKey(self.gsc_summary.kv_tables.computable_shape_table.len() - 1);
            let ghost tb = table;
            table.insert(shape, key);
            proof {
                assert(self.gsc_summary.kv_tables.computable_shape_table@.take(n as int) =~= t0) by {
                    assert(before.take(n as int) == t0);
                }
                assert forall|j: int| 0 <= j < i implies #[trigger] table.at(core_types()[j]).0 == n + j by {
                    assert(core_types()[j] != core_types()[i as int]);
                }
                assert forall|s: ElementaryShape| #[trigger] table.has(s) <==> exists|j: int| 0 <= j < i + 1 && core_types()[j] == s by {
                    if s == shape {
                        assert(core_types()[i as int] == s);
                    } else if table.has(s) {
                        assert(tb.has(s));
                    }
                }
            }
            i = i + 1;
        }
        self.gsc_summary.ecs_key_table = table;
        proof {
            assert forall|s: ElementaryShape| #[trigger] self.gsc_summary.ecs_key_table.has(s) implies core_types().contains(s) by {
                let j = choose|j: int| 0 <= j < core_types().len() && core_types()[j] == s;
                assert(core_types()[j] == s);
            }
        }
    }

    /// The key of the computable shape of the elementary shape `ele_shape`,
    /// which must have one.
    pub fn ask_for_ecs_key(&self, ele_shape: &ElementaryShape) -> (res: &ComputableShapeKey)
        requires
            self.gsc_summary.ecs_key_table.has(*ele_shape),
        ensures
            *res == self.gsc_summary.ecs_key_table.at(*ele_shape),
    {
        self.gsc_summary.ecs_key_table.get(ele_shape).unwrap()
    }

    /// The summary at work over the name tables and merged modules given,
    /// with the computable shapes of the elementary shapes stored.
    pub fn new(grand_module_skeleton_table: &'a GrandModuleSkeletonTable, grand_module_merge_table: GrandModuleMergeTable) -> (res: Self)
        ensures
            res.grand_module_skeleton_table == grand_module_skeleton_table,
            res.gsc_summary.kv_tables.computable_shape_table@.len() == core_types().len(),
            forall|i: int| 0 <= i < core_types().len() ==> res.gsc_summary.ecs_key_table.has(#[trigger] core_types()[i])
                && res.gsc_summary.ecs_key_table.at(core_types()[i]).0 == i,
            forall|i: int| 0 <= i < core_types().len() ==> (#[trigger] res.gsc_summary.kv_tables.computable_shape_table@[i]).gut
                == ComputableShapeGut::Elementary(ElementaryPShape { gut: core_types()[i], position: None }),
            pairs(&res.gsc_summary.sub_shape_table_buffer.proven_true) == Set::<(usize, usize)>::empty(),
            pairs(&res.gsc_summary.sub_shape_table_buffer.proven_false) == Set::<(usize, usize)>::empty(),
            pairs(&res.gsc_summary.sub_shape_table_buffer.proven_stuck) == Set::<(usize, usize)>::empty(),
            pairs(&res.gsc_summary.sub_shape_table_buffer.proven_overcost) == Set::<(usize, usize)>::empty(),
            res.assumed_pairs() == Set::<(usize, usize)>::empty(),
            res.gsc_summary.sub_shape_table_buffer.assumption.as_map().dom() == Set::<usize>::empty(),
    {
        let mut this = Self {
            grand_module_skeleton_table,
            grand_module_merge_table,
            gsc_summary: GrandShapeContentSummary::new_empty(),
        };
        this.generate_ecs_key_table();
        proof {
            assert forall|i: int| 0 <= i < core_types().len() implies this.gsc_summary.ecs_key_table.has(
                #[trigger] core_types()[i],
            ) && this.gsc_summary.ecs_key_table.at(core_types()[i]).0 == i by {
                assert(this.gsc_summary.kv_tables.computable_shape_table@[0 + i].position is None);
            }
            assert forall|i: int| 0 <= i < core_types().len() implies (
            #[trigger] this.gsc_summary.kv_tables.computable_shape_table@[i]).gut == ComputableShapeGut::Elementary(
                ElementaryPShape { gut: core_types()[i], position: None },
            ) by {
                assert(this.gsc_summary.kv_tables.computable_shape_table@[0 + i].position is None);
            }
        }
        this
    }
}


impl<'a> GrandShapeContentSummaryAtWork<'a> {
    /// Connects two shapes of the graph whose subshape question came out
    /// yes; the graph keeps no such edges yet, so nothing changes.
    pub fn connect_buffer_subshape_prove_true(&mut self, potential_subshape: ShapeGraphNodeSignature, potential_supershape: ShapeGraphNodeSignature)
        ensures
            *final(self) == *old(self),
    {
    }

    /// Connects two shapes of the graph whose subshape question came out
    /// no; the graph keeps no such edges yet, so nothing changes.
    pub fn connect_buffer_subshape_prove_false(&mut self, potential_subshape: ShapeGraphNodeSignature, potential_supershape: ShapeGraphNodeSignature)
        ensures
            *final(self) == *old(self),
    {
    }

    /// Marks an annotated subshape relation as holding; the graph keeps no
    /// such marks yet, so nothing changes.
    pub fn prove_annotated_subshape_true(&mut self, potential_subshape: ShapeGraphNodeSignature, potential_supershape: ShapeGraphNodeSignature)
        ensures
            *final(self) == *old(self),
    {
    }

    /// Marks an annotated subshape relation as failing; the graph keeps no
    /// such marks yet, so nothing changes.
    pub fn prove_annotated_subshape_false(&mut self, potential_subshape: ShapeGraphNodeSignature, potential_supershape: ShapeGraphNodeSignature)
        ensures
            *final(self) == *old(self),
    {
    }
}

} // verus!
