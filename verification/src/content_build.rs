use vstd::prelude::*;
use crate::ast::{
    BindDef, Coerce, FunctionDef, OperationDef, OperatorOverload, OperatorOverloadAnnotation, ShapeDef, ShapeSignature,
    TemplateDef, Type,
};
use crate::function_description::{closure_describes, closures_of, ends_with_reports, first_params, function_describes, function_reads, function_size, functions_of, param_keys};
use crate::keyed::{KeyView, KeyedMap};
use crate::lexer::Operator;
use crate::parsed::{Identifier, ParsedBox};
use crate::route::{CanonicalRoute, Route, RouteView};
use crate::shape_data::{
    BindContent, BindContentHeadKey, CoerceContent, CoerceContentHeadKey, CoerceDefSignature, FunctionDescriptionContext,
    InfixOperatorKind, OperationContent, OperationContentHeadKey, OperatorContent, OperatorContentHeadKey,
    OperatorDefSignature, PostfixOperatorKind, PrefixOperatorKind, ShapeContent, ShapeContentHeadKey, ShapeHeadView, ShapeDescriptionContext,
    ShapeDescriptionGut, SpecifiedShapeDefSignature,
};
use crate::parsed::PositionView;
use crate::shape_errors::{ContentResolutionError, ContentResolutionErrorKind, ShapeDefinitionResolutionError, ShapeDefinitionResolutionErrorKind};
use crate::shape_keys::{
    FunctionDescriptionContextKey, FunctionDescriptionKey, GenericParamDescriptionKey, OperationContentKey,
    ShapeContentKey, ShapeDescriptionContextKey, ShapeDescriptionKey,
};
use crate::shape_summary::{GrandShapeContentSummary, GrandShapeContentSummaryAtWork, KVTables};
use crate::type_description::{
    lemma_declaring_from_reading_pub, describes, lemma_describes_grow, lemma_grown_by_reading_refl, lemma_grown_by_reading_trans, lemma_grown_by_step,
    type_reads, type_size, lemma_declaring_context_push, lemma_declaring_refl, lemma_declaring_trans, arg_names, context_readable, guard_reading, guard_sizes, reading_of, seq_extends, tables_of, template_def_reads,
    Reading, TemplateArg,
};

verus! {

/// The generic parameters a definition declares, if any.
pub open spec fn template_args(td: Option<ParsedBox<TemplateDef>>) -> Seq<TemplateArg> {
    match td {
        Some(t) => t.value.args@,
        None => Seq::empty(),
    }
}

/// How the types of a definition in module `module_route` are read: with
/// its generic parameters in scope where it declares some without error,
/// with none otherwise; never with pattern variables.
pub open spec fn definition_reading(module_route: RouteView, td: Option<ParsedBox<TemplateDef>>, tables: Map<Seq<char>, crate::module_skeleton::SkeletonTableView>) -> Reading {
    match td {
        Some(t) => if template_def_reads(module_route, tables, t.value.args@) {
            guard_reading(module_route, arg_names(t.value.args@), tables)
        } else {
            Reading { module_route, patterns: None, param_names: None, tables }
        },
        None => Reading { module_route, patterns: None, param_names: None, tables },
    }
}

/// Whether the generic parameters `td` of a definition declare: it has some,
/// and they declare without error.
pub open spec fn template_declares(module_route: RouteView, td: Option<ParsedBox<TemplateDef>>, tables: Map<Seq<char>, crate::module_skeleton::SkeletonTableView>) -> bool {
    td is Some && template_def_reads(module_route, tables, td.unwrap().value.args@)
}

impl<'a> GrandShapeContentSummaryAtWork<'a> {
    /// Whether this summary is `old` with values added at the end of its
    /// tables and errors added at the end of the errors; the name tables
    /// and the merged modules are the same.
    pub open spec fn tables_grown(&self, old: Self) -> bool {
        let t = self.gsc_summary.kv_tables;
        let o = old.gsc_summary.kv_tables;
        &&& self.grand_module_skeleton_table == old.grand_module_skeleton_table
        &&& self.grand_module_merge_table == old.grand_module_merge_table
        &&& seq_extends(t.shape_content_table@, o.shape_content_table@)
        &&& seq_extends(t.operation_content_table@, o.operation_content_table@)
        &&& seq_extends(t.bind_content_table@, o.bind_content_table@)
        &&& seq_extends(t.operator_content_table@, o.operator_content_table@)
        &&& seq_extends(t.coerce_content_table@, o.coerce_content_table@)
        &&& seq_extends(t.generic_param_description_table@, o.generic_param_description_table@)
        &&& seq_extends(t.shape_description_table@, o.shape_description_table@)
        &&& seq_extends(t.shape_description_context_table@, o.shape_description_context_table@)
        &&& seq_extends(t.function_description_table@, o.function_description_table@)
        &&& seq_extends(t.function_description_context_table@, o.function_description_context_table@)
        &&& seq_extends(t.closure_description_table@, o.closure_description_table@)
        &&& seq_extends(t.in_closure_description_context_table@, o.in_closure_description_context_table@)
        &&& seq_extends(t.computable_shape_table@, o.computable_shape_table@)
        &&& seq_extends(self.gsc_summary.errors@, old.gsc_summary.errors@)
    }

    /// Whether the content heads, the recorded computable shapes, the
    /// subshape questions, the binds by name and the graph are those of
    /// `old`.
    pub open spec fn heads_same(&self, old: Self) -> bool {
        &&& self.gsc_summary.shape_content_heads == old.gsc_summary.shape_content_heads
        &&& self.gsc_summary.operation_content_heads == old.gsc_summary.operation_content_heads
        &&& self.gsc_summary.bind_content_heads == old.gsc_summary.bind_content_heads
        &&& self.gsc_summary.operator_content_heads == old.gsc_summary.operator_content_heads
        &&& self.gsc_summary.coerce_content_heads == old.gsc_summary.coerce_content_heads
        &&& self.gsc_summary.computable_shape_table == old.gsc_summary.computable_shape_table
        &&& self.gsc_summary.ecs_key_table == old.gsc_summary.ecs_key_table
        &&& self.gsc_summary.sub_shape_table_buffer == old.gsc_summary.sub_shape_table_buffer
        &&& self.gsc_summary.bind_name_table == old.gsc_summary.bind_name_table
        &&& self.gsc_summary.graph == old.gsc_summary.graph
    }

    /// Whether there is room in the tables to read a definition with
    /// generic parameters `td` and function `fd`.
    pub open spec fn definition_room(&self, td: Option<ParsedBox<TemplateDef>>, fd: ParsedBox<FunctionDef>) -> bool {
        let t = self.gsc_summary.kv_tables;
        let n = template_args(td).len();
        &&& t.generic_param_description_table@.len() + n < usize::MAX
        &&& t.shape_description_context_table@.len() + n + 2 < usize::MAX
        &&& self.descriptions().len() + guard_sizes(template_args(td)) + 2 * function_size(fd) <= usize::MAX
        &&& t.closure_description_table@.len() + function_size(fd) <= usize::MAX
        &&& t.function_description_table@.len() < usize::MAX
        &&& t.function_description_context_table@.len() < usize::MAX
        &&& t.operation_content_table@.len() < usize::MAX
        &&& t.bind_content_table@.len() < usize::MAX
        &&& t.operator_content_table@.len() < usize::MAX
        &&& t.coerce_content_table@.len() < usize::MAX
    }
}

/// Growing the tables twice is growing them.
pub(crate) proof fn lemma_tables_grown_trans(a: GrandShapeContentSummaryAtWork, b: GrandShapeContentSummaryAtWork, c: GrandShapeContentSummaryAtWork)
    requires
        b.tables_grown(a),
        c.tables_grown(b),
    ensures
        c.tables_grown(a),
{
    lemma_extends_trans(
        c.gsc_summary.kv_tables.shape_content_table@,
        b.gsc_summary.kv_tables.shape_content_table@,
        a.gsc_summary.kv_tables.shape_content_table@,
    );
    lemma_extends_trans(
        c.gsc_summary.kv_tables.operation_content_table@,
        b.gsc_summary.kv_tables.operation_content_table@,
        a.gsc_summary.kv_tables.operation_content_table@,
    );
    lemma_extends_trans(
        c.gsc_summary.kv_tables.bind_content_table@,
        b.gsc_summary.kv_tables.bind_content_table@,
        a.gsc_summary.kv_tables.bind_content_table@,
    );
    lemma_extends_trans(
        c.gsc_summary.kv_tables.operator_content_table@,
        b.gsc_summary.kv_tables.operator_content_table@,
        a.gsc_summary.kv_tables.operator_content_table@,
    );
    lemma_extends_trans(
        c.gsc_summary.kv_tables.coerce_content_table@,
        b.gsc_summary.kv_tables.coerce_content_table@,
        a.gsc_summary.kv_tables.coerce_content_table@,
    );
    lemma_extends_trans(
        c.gsc_summary.kv_tables.generic_param_description_table@,
        b.gsc_summary.kv_tables.generic_param_description_table@,
        a.gsc_summary.kv_tables.generic_param_description_table@,
    );
    lemma_extends_trans(
        c.gsc_summary.kv_tables.shape_description_table@,
        b.gsc_summary.kv_tables.shape_description_table@,
        a.gsc_summary.kv_tables.shape_description_table@,
    );
    lemma_extends_trans(
        c.gsc_summary.kv_tables.shape_description_context_table@,
        b.gsc_summary.kv_tables.shape_description_context_table@,
        a.gsc_summary.kv_tables.shape_description_context_table@,
    );
    lemma_extends_trans(
        c.gsc_summary.kv_tables.function_description_table@,
        b.gsc_summary.kv_tables.function_description_table@,
        a.gsc_summary.kv_tables.function_description_table@,
    );
    lemma_extends_trans(
        c.gsc_summary.kv_tables.function_description_context_table@,
        b.gsc_summary.kv_tables.function_description_context_table@,
        a.gsc_summary.kv_tables.function_description_context_table@,
    );
    lemma_extends_trans(
        c.gsc_summary.kv_tables.closure_description_table@,
        b.gsc_summary.kv_tables.closure_description_table@,
        a.gsc_summary.kv_tables.closure_description_table@,
    );
    lemma_extends_trans(
        c.gsc_summary.kv_tables.in_closure_description_context_table@,
        b.gsc_summary.kv_tables.in_closure_description_context_table@,
        a.gsc_summary.kv_tables.in_closure_description_context_table@,
    );
    lemma_extends_trans(
        c.gsc_summary.kv_tables.computable_shape_table@,
        b.gsc_summary.kv_tables.computable_shape_table@,
        a.gsc_summary.kv_tables.computable_shape_table@,
    );
    lemma_extends_trans(c.gsc_summary.errors@, b.gsc_summary.errors@, a.gsc_summary.errors@);
}

/// Starting with a start of a sequence is starting with it.
proof fn lemma_extends_trans<T>(c: Seq<T>, b: Seq<T>, a: Seq<T>)
    requires
        seq_extends(c, b),
        seq_extends(b, a),
    ensures
        seq_extends(c, a),
{
    assert(c.take(a.len() as int) =~= b.take(a.len() as int));
}

/// A sequence starts with itself.
proof fn lemma_extends_refl<T>(a: Seq<T>)
    ensures
        seq_extends(a, a),
{
    assert(a.take(a.len() as int) =~= a);
}

/// A summary's tables have grown from themselves.
pub(crate) proof fn lemma_tables_grown_refl(a: GrandShapeContentSummaryAtWork)
    ensures
        a.tables_grown(a),
        a.heads_same(a),
{
    let t = a.gsc_summary.kv_tables;
    lemma_extends_refl(t.shape_content_table@);
    lemma_extends_refl(t.operation_content_table@);
    lemma_extends_refl(t.bind_content_table@);
    lemma_extends_refl(t.operator_content_table@);
    lemma_extends_refl(t.coerce_content_table@);
    lemma_extends_refl(t.generic_param_description_table@);
    lemma_extends_refl(t.shape_description_table@);
    lemma_extends_refl(t.shape_description_context_table@);
    lemma_extends_refl(t.function_description_table@);
    lemma_extends_refl(t.function_description_context_table@);
    lemma_extends_refl(t.closure_description_table@);
    lemma_extends_refl(t.in_closure_description_context_table@);
    lemma_extends_refl(t.computable_shape_table@);
    lemma_extends_refl(a.gsc_summary.errors@);
}

/// Growing by declaring or by describing grows the tables and keeps the
/// heads.
proof fn lemma_tables_from_describing(a: GrandShapeContentSummaryAtWork, b: GrandShapeContentSummaryAtWork)
    requires
        b.grown_by_declaring(a) || b.grown_by_describing(a),
    ensures
        b.tables_grown(a),
        b.heads_same(a),
{
    lemma_tables_grown_refl(a);
    lemma_tables_grown_refl(b);
}

/// Storing a description context or a function description context grows
/// the tables and keeps the heads.
proof fn lemma_tables_context_push(a: GrandShapeContentSummaryAtWork, b: GrandShapeContentSummaryAtWork)
    requires
        b.grand_module_skeleton_table == a.grand_module_skeleton_table,
        b.grand_module_merge_table == a.grand_module_merge_table,
        b.gsc_summary == (GrandShapeContentSummary {
            kv_tables: KVTables {
                shape_description_context_table: b.gsc_summary.kv_tables.shape_description_context_table,
                ..a.gsc_summary.kv_tables
            },
            ..a.gsc_summary
        }) || b.gsc_summary == (GrandShapeContentSummary {
            kv_tables: KVTables {
                function_description_context_table: b.gsc_summary.kv_tables.function_description_context_table,
                ..a.gsc_summary.kv_tables
            },
            ..a.gsc_summary
        }),
        seq_extends(b.gsc_summary.kv_tables.shape_description_context_table@, a.gsc_summary.kv_tables.shape_description_context_table@),
        seq_extends(
            b.gsc_summary.kv_tables.function_description_context_table@,
            a.gsc_summary.kv_tables.function_description_context_table@,
        ),
    ensures
        b.tables_grown(a),
        b.heads_same(a),
{
    lemma_tables_grown_refl(a);
}

/// Adding errors grows the tables and keeps the heads.
proof fn lemma_tables_from_errors(a: GrandShapeContentSummaryAtWork, b: GrandShapeContentSummaryAtWork)
    requires
        b.same_but_errors(a),
        seq_extends(b.gsc_summary.errors@, a.gsc_summary.errors@),
    ensures
        b.tables_grown(a),
        b.heads_same(a),
{
    lemma_tables_grown_refl(a);
}

/// A readable context reads the same while the tables grow.
proof fn lemma_reading_grown(a: GrandShapeContentSummaryAtWork, b: GrandShapeContentSummaryAtWork, c: usize)
    requires
        context_readable(a, c),
        b.tables_grown(a),
    ensures
        context_readable(b, c),
        reading_of(b, c) == reading_of(a, c),
{
    let ta = a.gsc_summary.kv_tables;
    let tb = b.gsc_summary.kv_tables;
    assert(tb.shape_description_context_table@.take(ta.shape_description_context_table@.len() as int)[c as int]
        == tb.shape_description_context_table@[c as int]);
    match ta.shape_description_context_table@[c as int].generic_param_key {
        Some(g) => {
            assert(tb.generic_param_description_table@.take(ta.generic_param_description_table@.len() as int)[g.0 as int]
                == tb.generic_param_description_table@[g.0 as int]);
        },
        None => {},
    }
}

/// Whether the last error of `errors` is an error of content resolution
/// of kind `kind` at `pos`.
pub open spec fn last_content_error(errors: Seq<ShapeDefinitionResolutionError>, kind: ContentResolutionErrorKind, pos: PositionView) -> bool {
    &&& errors.len() > 0
    &&& errors.last().position@ == pos
    &&& match errors.last().kind {
        ShapeDefinitionResolutionErrorKind::ContentResolution(ce) => ce.kind == kind && ce.position@ == pos,
        _ => false,
    }
}

impl<'a> GrandShapeContentSummaryAtWork<'a> {
    /// The generic parameters and the description context of a definition
    /// in module `module_route` with generic parameters `template_def`:
    /// where it has some and they declare, their description and a context
    /// with them in scope (see `unresolved_shape_from_pb_template_def`);
    /// otherwise none, and a new context with no generic parameters.
    fn definition_context(&mut self, module_route: &Route, template_def: Option<ParsedBox<TemplateDef>>) -> (res: (
        Option<GenericParamDescriptionKey>,
        ShapeDescriptionContextKey,
    ))
        requires
            old(self).gsc_summary.kv_tables.generic_param_description_table@.len() + template_args(template_def).len()
                < usize::MAX,
            old(self).gsc_summary.kv_tables.shape_description_context_table@.len() + template_args(template_def).len() + 1
                < usize::MAX,
            old(self).descriptions().len() + guard_sizes(template_args(template_def)) <= usize::MAX,
        ensures
            final(self).grown_by_declaring(*old(self)),
            final(self).descriptions().len() <= old(self).descriptions().len() + guard_sizes(template_args(template_def)),
            final(self).gsc_summary.kv_tables.shape_description_context_table@.len()
                <= old(self).gsc_summary.kv_tables.shape_description_context_table@.len() + template_args(template_def).len() + 2,
            context_readable(*final(self), res.1.0),
            reading_of(*final(self), res.1.0) == definition_reading(module_route@, template_def, tables_of(*old(self))),
            res.0 is Some == template_declares(module_route@, template_def, tables_of(*old(self))),
            final(self).gsc_summary.kv_tables.shape_description_context_table@[res.1.0 as int].generic_param_key == res.0,
    {
        let ghost start = *self;
        let found = match template_def {
            Some(td) => self.unresolved_shape_from_pb_template_def(module_route.duplicate(), td),
            None => None,
        };
        let ghost mid = *self;
        proof {
            if template_def is None {
                lemma_declaring_refl(start);
            }
        }
        match found {
            Some((gk, ck)) => (Some(gk), ck),
            None => {
                let ck = self.new_shape_description_context(
                    ShapeDescriptionContext {
                        module_route: module_route.duplicate(),
                        generic_param_key: None,
                        definition_pattern_variable_types: None,
                    },
                );
                proof {
                    lemma_declaring_context_push(mid, *self);
                    lemma_declaring_trans(start, mid, *self);
                    assert(reading_of(*self, ck.0) =~= definition_reading(module_route@, template_def, tables_of(start)));
                }
                (None, ck)
            },
        }
    }

    /// The function context and the function description of a definition
    /// in module `module_route` with generic parameters `generic_params_key`,
    /// whose types are read in context `shape_def_context_key`: the context
    /// is stored, and the function read (see
    /// `function_description_from_pb_function_def`).
    fn definition_function(
        &mut self,
        module_route: &Route,
        generic_params_key: Option<GenericParamDescriptionKey>,
        shape_def_context_key: ShapeDescriptionContextKey,
        function_def: ParsedBox<FunctionDef>,
    ) -> (res: (FunctionDescriptionContextKey, Option<FunctionDescriptionKey>))
        requires
            context_readable(*old(self), shape_def_context_key.0),
            old(self).descriptions().len() + 2 * function_size(function_def) <= usize::MAX,
            closures_of(*old(self)).len() + function_size(function_def) <= usize::MAX,
            functions_of(*old(self)).len() < usize::MAX,
            old(self).gsc_summary.kv_tables.function_description_context_table@.len() < usize::MAX,
        ensures
            final(self).tables_grown(*old(self)),
            final(self).heads_same(*old(self)),
            final(self).gsc_summary.kv_tables.shape_content_table == old(self).gsc_summary.kv_tables.shape_content_table,
            final(self).gsc_summary.kv_tables.operation_content_table == old(self).gsc_summary.kv_tables.operation_content_table,
            final(self).gsc_summary.kv_tables.bind_content_table == old(self).gsc_summary.kv_tables.bind_content_table,
            final(self).gsc_summary.kv_tables.operator_content_table == old(self).gsc_summary.kv_tables.operator_content_table,
            final(self).gsc_summary.kv_tables.coerce_content_table == old(self).gsc_summary.kv_tables.coerce_content_table,
            res.0.0 == old(self).gsc_summary.kv_tables.function_description_context_table@.len(),
            final(self).gsc_summary.kv_tables.function_description_context_table@[res.0.0 as int].module_route@ == module_route@,
            final(self).gsc_summary.kv_tables.function_description_context_table@[res.0.0 as int].generic_params_key
                == generic_params_key,
            res.1 is Some == function_reads(function_def),
            res.1 is None ==> ends_with_reports(final(self).gsc_summary.errors@, first_params(function_def)),
            res.1 is Some ==> function_describes(
                reading_of(*old(self), shape_def_context_key.0),
                final(self).descriptions(),
                closures_of(*final(self)),
                functions_of(*final(self)),
                res.1.unwrap().0,
                res.0,
                shape_def_context_key.0,
                function_def,
            ),
    {
        let ghost start = *self;
        let fck = self.new_function_description_context(
            FunctionDescriptionContext { module_route: module_route.duplicate(), generic_params_key },
        );
        let ghost mid = *self;
        proof {
            lemma_extends_refl(mid.gsc_summary.kv_tables.shape_description_context_table@);
            assert(mid.gsc_summary.kv_tables.function_description_context_table@.take(
                start.gsc_summary.kv_tables.function_description_context_table@.len() as int,
            ) =~= start.gsc_summary.kv_tables.function_description_context_table@);
            lemma_tables_context_push(start, mid);
            lemma_reading_grown(start, mid, shape_def_context_key.0);
        }
        let fk = self.function_description_from_pb_function_def(fck, shape_def_context_key, function_def);
        proof {
            lemma_tables_from_describing(mid, *self);
            lemma_tables_grown_trans(start, mid, *self);
            assert(self.gsc_summary.kv_tables.function_description_context_table@
                == mid.gsc_summary.kv_tables.function_description_context_table@);
        }
        (fck, fk)
    }

    /// Reads a bind definition of module `module_route`. A bind's function
    /// must take the bound shape as its one parameter; as functions with
    /// parameters do not read (see `function_reads`), no bind is ever
    /// stored: where its function reads, the function shape is reported as
    /// having the wrong number of parameters.
    pub fn new_bind(&mut self, module_route: Route, pb_parsed_bind: ParsedBox<BindDef>) -> (res: Option<BindContentHeadKey>)
        requires
            old(self).definition_room(pb_parsed_bind.value.template_def, pb_parsed_bind.value.function_def),
        ensures
            bind_read(*old(self), *final(self), module_route@, pb_parsed_bind.value, res),
    {
        let ghost start = *self;
        let ParsedBox { value: bind, position: _ } = pb_parsed_bind;
        let BindDef { is_export: _, name, template_def, function_def } = bind;
        let ghost fd = function_def;
        let (generic_params_key, shape_def_context_key) = self.definition_context(&module_route, template_def);
        let ghost s1 = *self;
        proof {
            lemma_tables_from_describing(start, s1);
        }
        let key = BindContentHeadKey(CanonicalRoute::chain_one(module_route.duplicate(), name.value.name.clone()));
        let (function_des_context_key, found) = self.definition_function(
            &module_route,
            generic_params_key,
            shape_def_context_key,
            function_def,
        );
        let ghost s2 = *self;
        proof {
            lemma_tables_grown_trans(start, s1, s2);
        }
        let function_des_key = match found {
            Some(k) => k,
            None => {
                return None;
            },
        };
        let function_shape = self.gsc_summary.kv_tables.function_description_table[function_des_key.0].function_shape;
        proof {
            lemma_function_shape_arity(s2, function_des_key.0, function_des_context_key, shape_def_context_key.0, fd, s1);
        }
        let binded_shape = self.extract_binded_shape(function_shape);
        proof {
            lemma_extends_refl(s2.gsc_summary.errors@);
            lemma_tables_from_errors(s2, *self);
            lemma_tables_grown_trans(start, s2, *self);
        }
        let binded_shape = match binded_shape {
            Some(b) => b,
            None => {
                return None;
            },
        };
        let head = head_of(&binded_shape);
        let last = key.0.get_last_name();
        match self.gsc_summary.bind_name_table.remove(&head) {
            Some(names) => {
                let mut names = names;
                let list = match names.remove(&last) {
                    Some(v) => {
                        let mut v = v;
                        v.push(BindContentHeadKey(key.0.duplicate()));
                        v
                    },
                    None => {
                        let mut v: Vec<BindContentHeadKey> = Vec::new();
                        v.push(BindContentHeadKey(key.0.duplicate()));
                        v
                    },
                };
                names.insert(last, list);
                self.gsc_summary.bind_name_table.insert(head, names);
            },
            None => {},
        }
        self.new_bind_content_head(
            BindContentHeadKey(key.0.duplicate()),
            BindContent {
                key: BindContentHeadKey(key.0.duplicate()),
                generic_params_key,
                shape_def_context_key,
                function_des_context_key,
                function_des_key,
                binded_shape,
            },
        );
        Some(key)
    }
}

impl<'a> GrandShapeContentSummaryAtWork<'a> {
    /// Reads a coercion of module `module_route`. A coercion's function must
    /// take the shape it converts from as its one parameter; as functions
    /// with parameters do not read (see `function_reads`), no coercion is
    /// ever stored: where its function reads, the function shape is reported
    /// as having the wrong number of parameters.
    pub fn new_coerce(&mut self, module_route: Route, pb_parsed_coerce: ParsedBox<Coerce>) -> (res: Option<CoerceContentHeadKey>)
        requires
            old(self).definition_room(pb_parsed_coerce.value.template_def, pb_parsed_coerce.value.function_def),
        ensures
            coerce_read(*old(self), *final(self), module_route@, pb_parsed_coerce.value, res),
    {
        let ghost start = *self;
        let ParsedBox { value: coerce, position: _ } = pb_parsed_coerce;
        let Coerce { template_def, function_def } = coerce;
        let ghost fd = function_def;
        let (generic_params_key, shape_def_context_key) = self.definition_context(&module_route, template_def);
        let ghost s1 = *self;
        proof {
            lemma_tables_from_describing(start, s1);
        }
        let (function_des_context_key, found) = self.definition_function(
            &module_route,
            generic_params_key,
            shape_def_context_key,
            function_def,
        );
        let ghost s2 = *self;
        proof {
            lemma_tables_grown_trans(start, s1, s2);
        }
        let function_des_key = match found {
            Some(k) => k,
            None => {
                return None;
            },
        };
        let function_shape = self.gsc_summary.kv_tables.function_description_table[function_des_key.0].function_shape;
        proof {
            lemma_function_shape_arity(s2, function_des_key.0, function_des_context_key, shape_def_context_key.0, fd, s1);
        }
        let from_shape = self.extract_binded_shape(function_shape);
        proof {
            lemma_extends_refl(s2.gsc_summary.errors@);
            lemma_tables_from_errors(s2, *self);
            lemma_tables_grown_trans(start, s2, *self);
        }
        let from_shape = match from_shape {
            Some(b) => b,
            None => {
                return None;
            },
        };
        let to_key = match &self.gsc_summary.kv_tables.shape_description_table[function_shape.0].gut {
            ShapeDescriptionGut::Function { args: _, ret } => *ret,
            _ => {
                return None;
            },
        };
        let to_shape = match self.extract_specified_shape(to_key) {
            Some(t) => t,
            None => {
                return None;
            },
        };
        let key = CoerceContentHeadKey {
            from_shape: head_of(&from_shape),
            to_shape: head_of(&to_shape),
        };
        let signature = CoerceDefSignature { from_shape, to_shape };
        self.insert_coerce_content_head(
            key.key_dup(),
            CoerceContent {
                signature,
                generic_params_key,
                shape_def_context_key,
                function_des_context_key,
                function_des_key,
            },
        );
        Some(key)
    }

    /// Reads an operator overload of module `module_route`, whose operator
    /// fits where it is placed. An operator's function must take its
    /// operands as parameters; as functions with parameters do not read (see
    /// `function_reads`), no overload is ever stored: where its function
    /// reads, the function shape is reported as having the wrong number of
    /// parameters.
    pub fn new_operator(&mut self, module_route: Route, pb_parsed_operator: ParsedBox<OperatorOverload>) -> (res: Option<
        OperatorContentHeadKey,
    >)
        requires
            old(self).definition_room(pb_parsed_operator.value.template_def, pb_parsed_operator.value.function_def),
            operator_fits(pb_parsed_operator.value.annotation, pb_parsed_operator.value.operator.value),
        ensures
            operator_read(*old(self), *final(self), module_route@, pb_parsed_operator.value, res),
    {
        let ghost start = *self;
        let ParsedBox { value: operator, position: _ } = pb_parsed_operator;
        let OperatorOverload { annotation, operator: op, template_def, function_def } = operator;
        let ghost fd = function_def;
        let (generic_params_key, shape_def_context_key) = self.definition_context(&module_route, template_def);
        let ghost s1 = *self;
        proof {
            lemma_tables_from_describing(start, s1);
        }
        let (function_des_context_key, found) = self.definition_function(
            &module_route,
            generic_params_key,
            shape_def_context_key,
            function_def,
        );
        let ghost s2 = *self;
        proof {
            lemma_tables_grown_trans(start, s1, s2);
        }
        let function_des_key = match found {
            Some(k) => k,
            None => {
                return None;
            },
        };
        let function_shape = self.gsc_summary.kv_tables.function_description_table[function_des_key.0].function_shape;
        proof {
            lemma_function_shape_arity(s2, function_des_key.0, function_des_context_key, shape_def_context_key.0, fd, s1);
        }
        let first = self.extract_binded_shape(function_shape);
        proof {
            lemma_extends_refl(s2.gsc_summary.errors@);
            lemma_tables_from_errors(s2, *self);
            lemma_tables_grown_trans(start, s2, *self);
        }
        let operand = match first {
            Some(b) => b,
            None => {
                return None;
            },
        };
        let (signature, key) = match annotation {
            OperatorOverloadAnnotation::Infix => {
                let infix_op_kind = InfixOperatorKind::from_operator(op.value);
                let second_key = match &self.gsc_summary.kv_tables.shape_description_table[function_shape.0].gut {
                    ShapeDescriptionGut::Function { args: _, ret } => *ret,
                    _ => {
                        return None;
                    },
                };
                let operand2 = match self.extract_binded_shape(second_key) {
                    Some(b) => b,
                    None => {
                        return None;
                    },
                };
                let key = OperatorContentHeadKey::Infix {
                    operand1: head_of(&operand),
                    infix_op_kind,
                    operand2: head_of(&operand2),
                };
                (OperatorDefSignature::Infix { operand1: operand, infix_op_kind, operand2 }, key)
            },
            OperatorOverloadAnnotation::Prefix => {
                let prefix_op_kind = PrefixOperatorKind::from_operator(op.value);
                let key = OperatorContentHeadKey::Prefix { prefix_op_kind, operand: head_of(&operand) };
                (OperatorDefSignature::Prefix { prefix_op_kind, operand }, key)
            },
            OperatorOverloadAnnotation::Postfix => {
                let postfix_op_kind = PostfixOperatorKind::from_operator(op.value);
                let key = OperatorContentHeadKey::Postfix { operand: head_of(&operand), postfix_op_kind };
                (OperatorDefSignature::Postfix { operand, postfix_op_kind }, key)
            },
        };
        self.insert_operator_content_head(
            key.key_dup(),
            OperatorContent {
                signature,
                generic_params_key,
                shape_def_context_key,
                function_des_context_key,
                function_des_key,
            },
        );
        Some(key)
    }
}

impl<'a> GrandShapeContentSummaryAtWork<'a> {
    /// Whether, apart from the content tables and heads named, this
    /// summary's heads and recorded tables are those of `old`.
    pub open spec fn other_heads_same(&self, old: Self) -> bool {
        &&& self.gsc_summary.bind_content_heads == old.gsc_summary.bind_content_heads
        &&& self.gsc_summary.operator_content_heads == old.gsc_summary.operator_content_heads
        &&& self.gsc_summary.coerce_content_heads == old.gsc_summary.coerce_content_heads
        &&& self.gsc_summary.computable_shape_table == old.gsc_summary.computable_shape_table
        &&& self.gsc_summary.ecs_key_table == old.gsc_summary.ecs_key_table
        &&& self.gsc_summary.sub_shape_table_buffer == old.gsc_summary.sub_shape_table_buffer
        &&& self.gsc_summary.graph == old.gsc_summary.graph
    }

    /// Reads an operation definition of module `module_route`: its generic
    /// parameters are declared (see `definition_context`; where they
    /// declare, the context the function is read in is a copy of the one
    /// they give), its function read (see `definition_function`), and where
    /// the function reads, the operation's contents are stored and recorded
    /// under the operation's route.
    pub fn new_operation(&mut self, module_route: Route, pb_parsed_operation: ParsedBox<OperationDef>) -> (res: Option<
        OperationContentHeadKey,
    >)
        requires
            old(self).definition_room(pb_parsed_operation.value.template_def, pb_parsed_operation.value.function_def),
        ensures
            operation_read(*old(self), *final(self), module_route@, pb_parsed_operation.value, res),
    {
        let ghost start = *self;
        let ParsedBox { value: operation, position: _ } = pb_parsed_operation;
        let OperationDef { is_export: _, name, template_def, function_def } = operation;
        let key_route = CanonicalRoute::chain_one(module_route.duplicate(), name.value.name.clone());
        let (generic_params_key, declared_context) = self.definition_context(&module_route, template_def);
        let ghost s0 = *self;
        proof {
            lemma_tables_from_describing(start, s0);
        }
        let shape_def_context_key = match generic_params_key {
            Some(gk) => {
                let copied = ShapeDescriptionContext {
                    module_route: self.gsc_summary.kv_tables.shape_description_context_table[declared_context.0].module_route.duplicate(),
                    generic_param_key: Some(gk),
                    definition_pattern_variable_types: None,
                };
                let ck = self.new_shape_description_context(copied);
                proof {
                    lemma_extends_refl(self.gsc_summary.kv_tables.function_description_context_table@);
                    assert(self.gsc_summary.kv_tables.shape_description_context_table@.take(
                        s0.gsc_summary.kv_tables.shape_description_context_table@.len() as int,
                    ) =~= s0.gsc_summary.kv_tables.shape_description_context_table@);
                    lemma_tables_context_push(s0, *self);
                    lemma_tables_grown_trans(start, s0, *self);
                    assert(reading_of(*self, ck.0) =~= reading_of(s0, declared_context.0));
                }
                ck
            },
            None => {
                proof {
                    lemma_tables_grown_refl(s0);
                }
                declared_context
            },
        };
        let ghost s1 = *self;
        let (function_des_context_key, found) = self.definition_function(
            &module_route,
            generic_params_key,
            shape_def_context_key,
            function_def,
        );
        let ghost s2 = *self;
        proof {
            lemma_tables_grown_trans(start, s1, s2);
            lemma_reading_grown(s1, s2, shape_def_context_key.0);
        }
        let function_des_key = match found {
            Some(k) => k,
            None => {
                return None;
            },
        };
        let key = OperationContentHeadKey(key_route);
        self.new_operation_content_head(
            key.key_dup(),
            OperationContent {
                key: key.key_dup(),
                generic_params_key,
                shape_def_context_key,
                function_des_context_key,
                function_des_key,
            },
        );
        proof {
            let t = self.gsc_summary.kv_tables;
            let o = s2.gsc_summary.kv_tables;
            assert(t.operation_content_table@.take(o.operation_content_table@.len() as int) =~= o.operation_content_table@);
            lemma_tables_grown_refl(s2);
            lemma_tables_grown_trans(start, s2, *self);
            assert(reading_of(*self, shape_def_context_key.0) == reading_of(s2, shape_def_context_key.0));
        }
        Some(key)
    }
}

/// A pattern variable as written in a shape's signature: its name and its
/// type.
pub type PatternArg = ParsedBox<(ParsedBox<Identifier>, ParsedBox<Type>)>;

/// The names of pattern variables, in order.
pub open spec fn pattern_names(args: Seq<PatternArg>) -> Seq<Seq<char>> {
    args.map_values(|a: PatternArg| a.value.0.value.name@)
}

/// Whether the pattern variables `args` bind when read as `r`: every type
/// reads and no name comes twice.
pub open spec fn patterns_bind(r: Reading, args: Seq<PatternArg>) -> bool {
    &&& forall|i: int| 0 <= i < args.len() ==> type_reads(r, (#[trigger] args[i]).value.1)
    &&& pattern_names(args).no_duplicates()
}

/// The sizes of the types of pattern variables `args`, added up.
pub open spec fn pattern_sizes(args: Seq<PatternArg>) -> nat
    decreases args.len(),
{
    if args.len() == 0 {
        0
    } else {
        pattern_sizes(args.drop_last()) + type_size(args.last().value.1)
    }
}

/// `pattern_sizes` of a prefix one longer, and no more than of the whole.
proof fn lemma_pattern_sizes_prefix(s: Seq<PatternArg>, i: int)
    requires
        0 <= i < s.len(),
    ensures
        pattern_sizes(s.take(i + 1)) == pattern_sizes(s.take(i)) + type_size(s[i].value.1),
        pattern_sizes(s.take(i + 1)) <= pattern_sizes(s),
    decreases s.len(),
{
    assert(s.take(i + 1).drop_last() =~= s.take(i));
    assert(s.take(i + 1).last() == s[i]);
    if i + 1 < s.len() {
        lemma_pattern_sizes_prefix(s.drop_last(), i);
        assert(s.drop_last().take(i + 1) =~= s.take(i + 1));
    } else {
        assert(s.take(i + 1) =~= s);
    }
}

/// The pattern variables of a shape signature, if it has any.
pub open spec fn signature_patterns(sig: ShapeSignature) -> Seq<PatternArg> {
    match sig.args {
        Some(a) => a.value@,
        None => Seq::empty(),
    }
}

/// The most descriptions reading the types of a shape signature and the
/// shape's type can add.
pub open spec fn shape_sizes(shape: ShapeDef) -> nat {
    let sig = shape.signature.value;
    guard_sizes(template_args(sig.template_def)) + match sig.annotated_type {
        Some(t) => type_size(t),
        None => 0,
    } + pattern_sizes(signature_patterns(sig)) + type_size(shape.type_expr)
}

/// Whether the annotated supershape of a shape signature, where one is
/// written, reads as `r`.
pub open spec fn annotation_reads(r: Reading, sig: ShapeSignature) -> bool {
    match sig.annotated_type {
        Some(t) => type_reads(r, t),
        None => true,
    }
}

/// Whether `k` stands, in `s`, for the type `t` read as `r` in some
/// context of `s` that reads as `r`.
pub open spec fn described_in(s: GrandShapeContentSummaryAtWork, r: Reading, t: ParsedBox<Type>, k: usize) -> bool {
    exists|c: usize| context_readable(s, c) && #[trigger] reading_of(s, c) == r && describes(r, s.descriptions(), c, t, k)
}

/// Whether the pattern variables of `m` are those of `args`, read as `r`
/// in `s`: one per name, standing for its type.
pub open spec fn patterns_described(s: GrandShapeContentSummaryAtWork, r: Reading, args: Seq<PatternArg>, m: Map<Seq<char>, ShapeDescriptionKey>) -> bool {
    &&& m.dom() == pattern_names(args).to_set()
    &&& forall|i: int| 0 <= i < args.len() ==> described_in(s, r, (#[trigger] args[i]).value.1, m[pattern_names(args)[i]].0)
}

impl<'a> GrandShapeContentSummaryAtWork<'a> {
    /// Reads the pattern variables `args` of a shape signature in context
    /// `c`: their bindings where they bind (see `patterns_bind`); a name
    /// that comes twice is reported in the errors.
    fn read_patterns(&mut self, c: ShapeDescriptionContextKey, args: &Vec<PatternArg>) -> (res: Option<KeyedMap<String, ShapeDescriptionKey>>)
        requires
            context_readable(*old(self), c.0),
            old(self).descriptions().len() + pattern_sizes(args@) <= usize::MAX,
        ensures
            final(self).grown_by_reading(*old(self)),
            final(self).descriptions().len() <= old(self).descriptions().len() + pattern_sizes(args@),
            res is Some == patterns_bind(reading_of(*old(self), c.0), args@),
            res is Some ==> res.unwrap().as_map().dom() == pattern_names(args@).to_set(),
            res is Some ==> forall|i: int| 0 <= i < args@.len() ==> describes(
                reading_of(*old(self), c.0),
                final(self).descriptions(),
                c.0,
                (#[trigger] args@[i]).value.1,
                res.unwrap().as_map()[pattern_names(args@)[i]].0,
            ),
    {
        let ghost start = *self;
        let ghost r = reading_of(*self, c.0);
        let ghost names = pattern_names(args@);
        let mut acc: KeyedMap<String, ShapeDescriptionKey> = KeyedMap::new();
        let mut is_err = false;
        let mut i: usize = 0;
        proof {
            lemma_grown_by_reading_refl(*self);
            assert(args@.take(0) =~= Seq::<PatternArg>::empty());
            assert(names.take(0) =~= Seq::<Seq<char>>::empty());
            assert(acc.as_map().dom() =~= names.take(0).to_set());
        }
        while i < args.len()
            invariant
                i <= args@.len(),
                names == pattern_names(args@),
                self.grown_by_reading(start),
                reading_of(start, c.0) == r,
                context_readable(*self, c.0),
                start.descriptions().len() + pattern_sizes(args@) <= usize::MAX,
                self.descriptions().len() <= start.descriptions().len() + pattern_sizes(args@.take(i as int)),
                is_err == !patterns_bind(r, args@.take(i as int)),
                !is_err ==> acc.as_map().dom() == names.take(i as int).to_set(),
                !is_err ==> forall|j: int| 0 <= j < i ==> describes(
                    r,
                    self.descriptions(),
                    c.0,
                    (#[trigger] args@[j]).value.1,
                    acc.as_map()[names[j]].0,
                ),
            decreases args.len() - i,
        {
            proof {
                lemma_pattern_sizes_prefix(args@, i as int);
            }
            let ghost before = *self;
            let ghost acc0 = acc.as_map();
            let ghost t = args@.take(i + 1);
            let name = args[i].value.0.value.name.clone();
            let read = self.read_type(c, &args[i].value.1);
            let ghost s1 = *self;
            proof {
                lemma_grown_by_reading_trans(start, before, s1);
                assert(t =~= args@.take(i as int).push(args@[i as int]));
                assert(pattern_names(t) =~= names.take(i as int).push(names[i as int]));
                assert(names[i as int] == name@);
            }
            match read {
                Some(k) => {
                    if acc.contains_key(&name) {
                        let e = ShapeDefinitionResolutionError::from_content_resolution(
                            ContentResolutionError::duplicate_pattern_variable_definition(args[i].value.0.position.duplicate(), name),
                        );
                        self.add_error(e);
                        proof {
                            lemma_grown_by_step(s1, *self);
                            lemma_grown_by_reading_trans(start, s1, *self);
                        }
                        is_err = true;
                    } else {
                        acc.insert(name, k);
                    }
                },
                None => {
                    is_err = true;
                },
            }
            proof {
                if !is_err {
                    lemma_grown_by_reading_refl(*self);
                }
                let pn = pattern_names(t);
                if is_err {
                    if patterns_bind(r, t) {
                        assert(type_reads(r, t[i as int].value.1));
                        assert forall|j: int| 0 <= j < i implies type_reads(r, (#[trigger] args@.take(i as int)[j]).value.1) by {
                            assert(args@.take(i as int)[j] == t[j]);
                        }
                        assert(pattern_names(args@.take(i as int)) =~= pn.take(i as int));
                        if patterns_bind(r, args@.take(i as int)) {
                            assert(acc0.dom().contains(name@));
                            let j = names.take(i as int).index_of(name@);
                            assert(pn[j] == pn[i as int]);
                        }
                    }
                } else {
                    assert(pattern_names(args@.take(i as int)) =~= names.take(i as int));
                    assert forall|x: Seq<char>| #[trigger] names.take(i + 1).to_set().contains(x) == acc.as_map().dom().contains(x) by {
                        if names.take(i + 1).contains(x) {
                            let j = choose|j: int| 0 <= j < names.take(i + 1).len() && #[trigger] names.take(i + 1)[j] == x;
                            if j < i {
                                assert(names.take(i as int)[j] == x);
                                assert(names.take(i as int).contains(x));
                            }
                        }
                        if acc0.dom().contains(x) {
                            assert(names.take(i as int).contains(x));
                            let j = choose|j: int| 0 <= j < names.take(i as int).len() && #[trigger] names.take(i as int)[j] == x;
                            assert(names.take(i + 1)[j] == x);
                        }
                        if x == name@ {
                            assert(names.take(i + 1)[i as int] == x);
                        }
                    }
                    assert(acc.as_map().dom() =~= names.take(i + 1).to_set());
                    assert(patterns_bind(r, t)) by {
                        assert forall|j: int| 0 <= j < t.len() implies type_reads(r, (#[trigger] t[j]).value.1) by {
                            if j < i {
                                assert(t[j] == args@.take(i as int)[j]);
                            }
                        }
                        assert forall|a: int, b: int| 0 <= a < pn.len() && 0 <= b < pn.len() && a != b implies pn[a] != pn[b] by {
                            if a < i && b < i {
                                assert(pn[a] == names.take(i as int)[a]);
                                assert(pn[b] == names.take(i as int)[b]);
                            } else if a < i {
                                assert(acc0.dom().contains(pn[a]));
                            } else if b < i {
                                assert(acc0.dom().contains(pn[b]));
                            }
                        }
                    }
                    assert forall|j: int| 0 <= j < i + 1 implies describes(
                        r,
                        self.descriptions(),
                        c.0,
                        (#[trigger] args@[j]).value.1,
                        acc.as_map()[names[j]].0,
                    ) by {
                        if j < i {
                            lemma_describes_grow(r, before.descriptions(), self.descriptions(), c.0, args@[j].value.1, acc0[names[j]].0);
                            assert(names.take(i as int)[j] == names[j]);
                            assert(names.take(i as int).contains(names[j]));
                            assert(names.take(i as int).to_set().contains(names[j]));
                            assert(acc0.dom().contains(names[j]));
                            assert(!acc0.dom().contains(name@));
                            assert(names[j] != names[i as int]);
                        }
                    }
                }
            }
            i = i + 1;
        }
        proof {
            assert(args@.take(i as int) =~= args@);
            assert(names.take(i as int) =~= names);
        }
        if is_err {
            None
        } else {
            Some(acc)
        }
    }
}

impl<'a> GrandShapeContentSummaryAtWork<'a> {
    /// Whether there is room in the tables to read the shape definition
    /// `shape`.
    pub open spec fn shape_room(&self, shape: ShapeDef) -> bool {
        let t = self.gsc_summary.kv_tables;
        let n = template_args(shape.signature.value.template_def).len();
        &&& t.generic_param_description_table@.len() + n < usize::MAX
        &&& t.shape_description_context_table@.len() + n + 4 < usize::MAX
        &&& self.descriptions().len() + shape_sizes(shape) <= usize::MAX
        &&& t.shape_content_table@.len() < usize::MAX
    }

    /// Reads a shape definition of module `module_route`: its generic
    /// parameters are declared (see `definition_context`; where they
    /// declare, the shape's types are read in a copy of the context they
    /// give), its annotated supershape read, its pattern variables bound
    /// (see `read_patterns`), a context made with those bindings, and its
    /// type read in that context; where all of that reads, the shape's
    /// contents are stored and recorded under the shape's route, with no
    /// binds by name yet.
    #[verifier::rlimit(40)]
    pub fn new_shape(&mut self, module_route: Route, pb_parsed_shape: ParsedBox<ShapeDef>) -> (res: Option<ShapeContentHeadKey>)
        requires
            old(self).shape_room(pb_parsed_shape.value),
        ensures
            shape_read(*old(self), *final(self), module_route@, pb_parsed_shape.value, res),
    {
        let ghost start = *self;
        let ghost shape_v = pb_parsed_shape.value;
        let ParsedBox { value: shape, position: _ } = pb_parsed_shape;
        let ShapeDef { is_export: _, signature, type_expr } = shape;
        let ParsedBox { value: sig, position: _ } = signature;
        let ShapeSignature { id, template_def, annotated_type, args } = sig;
        let ghost r0 = definition_reading(module_route@, template_def, tables_of(start));
        let this_route = CanonicalRoute::chain_one(module_route.duplicate(), id.value.name.clone());
        let (generic_params_key, declared_context) = self.definition_context(&module_route, template_def);
        let ghost s0 = *self;
        proof {
            lemma_tables_from_describing(start, s0);
        }
        let ck = match generic_params_key {
            Some(gk) => {
                let copied = ShapeDescriptionContext {
                    module_route: self.gsc_summary.kv_tables.shape_description_context_table[declared_context.0].module_route.duplicate(),
                    generic_param_key: Some(gk),
                    definition_pattern_variable_types: None,
                };
                let ck = self.new_shape_description_context(copied);
                proof {
                    lemma_extends_refl(self.gsc_summary.kv_tables.function_description_context_table@);
                    assert(self.gsc_summary.kv_tables.shape_description_context_table@.take(
                        s0.gsc_summary.kv_tables.shape_description_context_table@.len() as int,
                    ) =~= s0.gsc_summary.kv_tables.shape_description_context_table@);
                    lemma_tables_context_push(s0, *self);
                    lemma_tables_grown_trans(start, s0, *self);
                    assert(reading_of(*self, ck.0) =~= reading_of(s0, declared_context.0));
                }
                ck
            },
            None => {
                proof {
                    lemma_tables_grown_refl(s0);
                }
                declared_context
            },
        };
        let ghost s1 = *self;
        let annotated = match &annotated_type {
            Some(t) => {
                match self.read_type(ck, t) {
                    Some(k) => Some(k),
                    None => {
                        proof {
                            lemma_tables_from_describing(s1, *self);
                            lemma_tables_grown_trans(start, s1, *self);
                        }
                        return None;
                    },
                }
            },
            None => {
                proof {
                    lemma_grown_by_reading_refl(s1);
                }
                None
            },
        };
        let ghost s2 = *self;
        proof {
            lemma_declaring_from_reading_pub(s1, s2);
            lemma_tables_from_describing(s1, s2);
            lemma_tables_grown_trans(start, s1, s2);
            lemma_reading_grown(s1, s2, ck.0);
        }
        let patterns = match &args {
            Some(a) => self.read_patterns(ck, &a.value),
            None => {
                proof {
                    lemma_grown_by_reading_refl(s2);
                }
                None
            },
        };
        let ghost s3 = *self;
        let ghost pm = if patterns is Some {
            Some(patterns.unwrap().as_map())
        } else {
            None
        };
        proof {
            lemma_declaring_from_reading_pub(s2, s3);
            lemma_tables_from_describing(s2, s3);
            lemma_tables_grown_trans(start, s2, s3);
            lemma_reading_grown(s2, s3, ck.0);
        }
        let base_route = self.gsc_summary.kv_tables.shape_description_context_table[ck.0].module_route.duplicate();
        let base_generic = self.gsc_summary.kv_tables.shape_description_context_table[ck.0].generic_param_key;
        let c2 = self.new_shape_description_context(
            ShapeDescriptionContext {
                module_route: base_route,
                generic_param_key: base_generic,
                definition_pattern_variable_types: patterns,
            },
        );
        let ghost s4 = *self;
        proof {
            lemma_extends_refl(s4.gsc_summary.kv_tables.function_description_context_table@);
            assert(s4.gsc_summary.kv_tables.shape_description_context_table@.take(
                s3.gsc_summary.kv_tables.shape_description_context_table@.len() as int,
            ) =~= s3.gsc_summary.kv_tables.shape_description_context_table@);
            lemma_tables_context_push(s3, s4);
            lemma_tables_grown_trans(start, s3, s4);
            lemma_reading_grown(s3, s4, ck.0);
            assert(reading_of(s4, c2.0) =~= Reading {
                module_route: module_route@,
                patterns: pm,
                param_names: r0.param_names,
                tables: tables_of(start),
            });
        }
        let read = self.read_type(c2, &type_expr);
        let ghost s5 = *self;
        proof {
            lemma_declaring_from_reading_pub(s4, s5);
            lemma_tables_from_describing(s4, s5);
            lemma_tables_grown_trans(start, s4, s5);
            lemma_reading_grown(s4, s5, ck.0);
            lemma_reading_grown(s4, s5, c2.0);
            lemma_tables_grown_trans(s2, s3, s5);
            if pm is Some {
                let m = pm.unwrap();
                let pargs = signature_patterns(shape_v.signature.value);
                assert forall|i: int| 0 <= i < pargs.len() implies described_in(s5, r0, (#[trigger] pargs[i]).value.1, m[pattern_names(pargs)[i]].0) by {
                    lemma_describes_grow(r0, s3.descriptions(), s5.descriptions(), ck.0, pargs[i].value.1, m[pattern_names(pargs)[i]].0);
                    assert(context_readable(s5, ck.0) && reading_of(s5, ck.0) == r0);
                }
            }
            if annotated_type is Some {
                let t = annotated_type.unwrap();
                let k = annotated.unwrap().0;
                lemma_tables_grown_trans(s2, s3, s5);
                lemma_describes_grow(r0, s2.descriptions(), s5.descriptions(), ck.0, t, k);
                assert(context_readable(s5, ck.0) && reading_of(s5, ck.0) == r0);
            }
        }
        let description_key = match read {
            Some(k) => k,
            None => {
                return None;
            },
        };
        let key = ShapeContentHeadKey::Custom(this_route);
        self.new_shape_content_head(
            key.key_dup(),
            ShapeContent {
                key: key.key_dup(),
                generic_params_key,
                annotated_supertype: annotated,
                context_key: c2,
                description_key,
            },
        );
        self.gsc_summary.bind_name_table.insert(key.key_dup(), KeyedMap::new());
        proof {
            let t = self.gsc_summary.kv_tables;
            let o = s5.gsc_summary.kv_tables;
            assert(t.shape_content_table@.take(o.shape_content_table@.len() as int) =~= o.shape_content_table@);
            lemma_tables_grown_refl(s5);
            lemma_tables_grown_trans(start, s5, *self);
            assert(reading_of(*self, c2.0) == reading_of(s5, c2.0));
            assert(reading_of(*self, ck.0) == reading_of(s5, ck.0));
            if pm is Some {
                let m = pm.unwrap();
                let pargs = signature_patterns(shape_v.signature.value);
                assert forall|i: int| 0 <= i < pargs.len() implies described_in(*self, r0, (#[trigger] pargs[i]).value.1, m[pattern_names(pargs)[i]].0) by {
                    assert(described_in(s5, r0, pargs[i].value.1, m[pattern_names(pargs)[i]].0));
                    let c = choose|c: usize| context_readable(s5, c) && #[trigger] reading_of(s5, c) == r0 && describes(r0, s5.descriptions(), c, pargs[i].value.1, m[pattern_names(pargs)[i]].0);
                    assert(reading_of(*self, c) == reading_of(s5, c));
                }
            }
            if annotated_type is Some {
                let t = annotated_type.unwrap();
                let k = annotated.unwrap().0;
                let c = choose|c: usize| context_readable(s5, c) && #[trigger] reading_of(s5, c) == r0 && describes(r0, s5.descriptions(), c, t, k);
                assert(reading_of(*self, c) == reading_of(s5, c));
            }
            let res = Some(key);
            let shape = shape_v;
            let sig = shape.signature.value;
            let tables = tables_of(start);
            let args = signature_patterns(sig);
            let bound = sig.args is Some && patterns_bind(r0, args);
            let cc = (self.gsc_summary.kv_tables.shape_description_context_table@.len() - 1) as usize;
            let r = reading_of(*self, cc);
            assert(self.tables_grown(start));
            assert(annotation_reads(r0, sig));
            assert(context_readable(*self, cc));
            assert(r.patterns is Some == bound);
            assert(bound ==> patterns_described(*self, r0, args, r.patterns.unwrap()));
            assert(res is Some == type_reads(r, shape.type_expr));
            let n = start.gsc_summary.kv_tables.shape_content_table@.len();
            let content = self.gsc_summary.kv_tables.shape_content_table@[n as int];
            assert(key@ == ShapeHeadView::Custom(module_route@.extend(seq![sig.id.value.name@])));
            assert(self.gsc_summary.shape_content_heads.as_map() == start.gsc_summary.shape_content_heads.as_map().insert(key@, ShapeContentKey(n as usize)));
            assert(self.gsc_summary.bind_name_table.as_map().dom() == start.gsc_summary.bind_name_table.as_map().dom().insert(key@));
            assert(self.gsc_summary.bind_name_table.at(key@).as_map().dom() == Set::<Seq<char>>::empty());
            assert(self.gsc_summary.operation_content_heads == start.gsc_summary.operation_content_heads);
            assert(self.other_heads_same(start));
            assert(content.key@ == key@);
            assert(content.context_key.0 == cc);
            assert(describes(r, self.descriptions(), cc, shape.type_expr, content.description_key.0));
        }
        Some(key)
    }
}

/// The key of the contents of the shape a signature is about.
fn head_of(signature: &SpecifiedShapeDefSignature) -> (res: ShapeContentHeadKey)
    ensures
        match *signature {
            SpecifiedShapeDefSignature::Elementary(e) => res == ShapeContentHeadKey::Prelude(e),
            SpecifiedShapeDefSignature::Custom { route, .. } => res@ == ShapeHeadView::Custom(route@),
        },
{
    match signature {
        SpecifiedShapeDefSignature::Elementary(e) => ShapeContentHeadKey::Prelude(*e),
        SpecifiedShapeDefSignature::Custom { route, params: _ } => ShapeContentHeadKey::Custom(route.duplicate()),
    }
}

/// The function shape of a function read from a definition takes no
/// parameters, and can be handed to `extract_binded_shape`.
proof fn lemma_function_shape_arity(
    s: GrandShapeContentSummaryAtWork,
    fk: usize,
    fc: FunctionDescriptionContextKey,
    c: usize,
    fd: ParsedBox<FunctionDef>,
    before: GrandShapeContentSummaryAtWork,
)
    requires
        context_readable(before, c),
        s.tables_grown(before),
        function_describes(reading_of(before, c), s.descriptions(), closures_of(s), functions_of(s), fk, fc, c, fd),
    ensures
        ({
            let k = functions_of(s)[fk as int].function_shape.0;
            &&& k < s.descriptions().len()
            &&& s.descriptions()[k as int].context_key.0 < s.gsc_summary.kv_tables.shape_description_context_table@.len()
            &&& s.descriptions()[k as int].gut is Function
            &&& s.descriptions()[k as int].gut->Function_args@.len() == 0
            &&& s.descriptions()[k as int].pos@ == fd.position@
        }),
{
    lemma_reading_grown(before, s, c);
    let f = functions_of(s)[fk as int];
    let cs = closures_of(s);
    assert(closure_describes(reading_of(before, c), s.descriptions(), cs, cs[f.closure.0 as int], c, fd));
    assert(param_keys(cs[f.closure.0 as int]).len() == cs[f.closure.0 as int].params@.len());
}

/// What reading the definition `bind_def` of module `mr` does, from `old` to
/// `new`, with result `res` (see `new_bind`).
pub open spec fn bind_read(old: GrandShapeContentSummaryAtWork, new: GrandShapeContentSummaryAtWork, mr: RouteView, bind_def: BindDef, res: Option<BindContentHeadKey>) -> bool {
    &&& (new.tables_grown(old))
    &&& (new.heads_same(old))
    &&& (res is None)
    &&& (!function_reads(bind_def.function_def) ==> ends_with_reports(new.gsc_summary.errors@, first_params(bind_def.function_def)))
    &&& (function_reads(bind_def.function_def) ==> last_content_error(
                new.gsc_summary.errors@,
                ContentResolutionErrorKind::BindOperationTypeMismatch,
                bind_def.function_def.position@))
}

/// What reading the definition `coerce_def` of module `mr` does, from `old` to
/// `new`, with result `res` (see `new_coerce`).
pub open spec fn coerce_read(old: GrandShapeContentSummaryAtWork, new: GrandShapeContentSummaryAtWork, mr: RouteView, coerce_def: Coerce, res: Option<CoerceContentHeadKey>) -> bool {
    &&& (new.tables_grown(old))
    &&& (new.heads_same(old))
    &&& (res is None)
    &&& (!function_reads(coerce_def.function_def) ==> ends_with_reports(new.gsc_summary.errors@, first_params(coerce_def.function_def)))
    &&& (function_reads(coerce_def.function_def) ==> last_content_error(
                new.gsc_summary.errors@,
                ContentResolutionErrorKind::BindOperationTypeMismatch,
                coerce_def.function_def.position@))
}

/// What reading the definition `operator_def` of module `mr` does, from `old` to
/// `new`, with result `res` (see `new_operator`).
pub open spec fn operator_read(old: GrandShapeContentSummaryAtWork, new: GrandShapeContentSummaryAtWork, mr: RouteView, operator_def: OperatorOverload, res: Option<OperatorContentHeadKey>) -> bool {
    &&& (new.tables_grown(old))
    &&& (new.heads_same(old))
    &&& (res is None)
    &&& (!function_reads(operator_def.function_def) ==> ends_with_reports(new.gsc_summary.errors@, first_params(operator_def.function_def)))
    &&& (function_reads(operator_def.function_def) ==> last_content_error(
                new.gsc_summary.errors@,
                ContentResolutionErrorKind::BindOperationTypeMismatch,
                operator_def.function_def.position@))
}

/// What reading the definition `operation_def` of module `mr` does, from `old` to
/// `new`, with result `res` (see `new_operation`).
pub open spec fn operation_read(old: GrandShapeContentSummaryAtWork, new: GrandShapeContentSummaryAtWork, mr: RouteView, operation_def: OperationDef, res: Option<OperationContentHeadKey>) -> bool {
    &&& (new.tables_grown(old))
    &&& (res is Some == function_reads(operation_def.function_def))
    &&& (res is None ==> new.heads_same(old))
    &&& (res is None ==> ends_with_reports(new.gsc_summary.errors@, first_params(operation_def.function_def)))
    &&& (res is Some ==> ({
                let key = res.unwrap();
                let op = operation_def;
                let n = old.gsc_summary.kv_tables.operation_content_table@.len();
                let content = new.gsc_summary.kv_tables.operation_content_table@[n as int];
                let t = new.gsc_summary.kv_tables;
                let ck = content.shape_def_context_key.0;
                let fck = content.function_des_context_key;
                &&& key@ == mr.extend(seq![op.name.value.name@])
                &&& t.operation_content_table@.len() == n + 1
                &&& new.gsc_summary.operation_content_heads.as_map() == old.gsc_summary.operation_content_heads.as_map().insert(key@, OperationContentKey(n as usize))
                &&& new.gsc_summary.shape_content_heads == old.gsc_summary.shape_content_heads
                &&& new.gsc_summary.bind_name_table == old.gsc_summary.bind_name_table
                &&& new.other_heads_same(old)
                &&& content.key@ == key@
                &&& content.generic_params_key is Some == template_declares(
                    mr,
                    op.template_def,
                    tables_of(old),
                )
                &&& context_readable(new, ck)
                &&& reading_of(new, ck) == definition_reading(mr, op.template_def, tables_of(old))
                &&& t.shape_description_context_table@[ck as int].generic_param_key == content.generic_params_key
                &&& t.function_description_context_table@[fck.0 as int].module_route@ == mr
                &&& t.function_description_context_table@[fck.0 as int].generic_params_key == content.generic_params_key
                &&& function_describes(
                    reading_of(new, ck),
                    new.descriptions(),
                    closures_of(new),
                    functions_of(new),
                    content.function_des_key.0,
                    fck,
                    ck,
                    op.function_def,
                )
            }))
}

/// What reading the definition `shape_def` of module `mr` does, from `old` to
/// `new`, with result `res` (see `new_shape`).
pub open spec fn shape_read(old: GrandShapeContentSummaryAtWork, new: GrandShapeContentSummaryAtWork, mr: RouteView, shape_def: ShapeDef, res: Option<ShapeContentHeadKey>) -> bool {
    &&& (new.tables_grown(old))
    &&& (res is None ==> new.heads_same(old))
    &&& (({
                let shape = shape_def;
                let sig = shape.signature.value;
                let tables = tables_of(old);
                let r0 = definition_reading(mr, sig.template_def, tables);
                let args = signature_patterns(sig);
                let bound = sig.args is Some && patterns_bind(r0, args);
                let c = (new.gsc_summary.kv_tables.shape_description_context_table@.len() - 1) as usize;
                let r = reading_of(new, c);
                &&& !annotation_reads(r0, sig) ==> res is None
                &&& annotation_reads(r0, sig) ==> {
                    &&& context_readable(new, c)
                    &&& r.module_route == mr
                    &&& r.param_names == r0.param_names
                    &&& r.tables == tables
                    &&& r.patterns is Some == bound
                    &&& bound ==> patterns_described(new, r0, args, r.patterns.unwrap())
                    &&& res is Some == type_reads(r, shape.type_expr)
                }
                &&& res is Some ==> {
                    let key = res.unwrap();
                    let n = old.gsc_summary.kv_tables.shape_content_table@.len();
                    let content = new.gsc_summary.kv_tables.shape_content_table@[n as int];
                    &&& key@ == ShapeHeadView::Custom(mr.extend(seq![sig.id.value.name@]))
                    &&& new.gsc_summary.kv_tables.shape_content_table@.len() == n + 1
                    &&& new.gsc_summary.shape_content_heads.as_map() == old.gsc_summary.shape_content_heads.as_map().insert(key@, ShapeContentKey(n as usize))
                    &&& new.gsc_summary.bind_name_table.as_map().dom() == old.gsc_summary.bind_name_table.as_map().dom().insert(key@)
                    &&& new.gsc_summary.bind_name_table.at(key@).as_map().dom() == Set::<Seq<char>>::empty()
                    &&& forall|x: ShapeHeadView| x != key@ && old.gsc_summary.bind_name_table.has(x)
                        ==> #[trigger] new.gsc_summary.bind_name_table.at(x) == old.gsc_summary.bind_name_table.at(x)
                    &&& new.gsc_summary.operation_content_heads == old.gsc_summary.operation_content_heads
                    &&& new.other_heads_same(old)
                    &&& content.key@ == key@
                    &&& content.generic_params_key is Some == template_declares(mr, sig.template_def, tables)
                    &&& content.context_key.0 == c
                    &&& match sig.annotated_type {
                        Some(t) => content.annotated_supertype is Some && described_in(
                            new,
                            r0,
                            t,
                            content.annotated_supertype.unwrap().0,
                        ),
                        None => content.annotated_supertype is None,
                    }
                    &&& describes(r, new.descriptions(), c, shape.type_expr, content.description_key.0)
                }
            }))
}

/// A prefix operator can be overloaded as `op`.
pub open spec fn prefix_operator(op: Operator) -> bool {
    op == Operator::Increment || op == Operator::Decrement || op == Operator::Add || op == Operator::Sub || op
        == Operator::Mul || op == Operator::BitAnd || op == Operator::Question || op == Operator::Exclamation || op
        == Operator::BitNot
}

/// An infix operator can be overloaded as `op`.
pub open spec fn infix_operator(op: Operator) -> bool {
    op == Operator::Dot || op == Operator::Exclamation || op == Operator::Question || op == Operator::Pow || op
        == Operator::IntDiv || op == Operator::Mul || op == Operator::Div || op == Operator::Mod || op == Operator::Add
        || op == Operator::Sub || op == Operator::BitShiftLeft || op == Operator::BitShiftRight || op == Operator::Gt
        || op == Operator::Gte || op == Operator::Lt || op == Operator::Lte || op == Operator::Eq || op == Operator::Teq
        || op == Operator::Neq || op == Operator::BitAnd || op == Operator::BitXor || op == Operator::BitOr || op
        == Operator::And || op == Operator::Or
}

/// A postfix operator can be overloaded as `op`.
pub open spec fn postfix_operator(op: Operator) -> bool {
    op == Operator::Question || op == Operator::Exclamation || op == Operator::Increment || op == Operator::Decrement
}

/// Whether `op` can be overloaded where `annotation` places it.
pub open spec fn operator_fits(annotation: OperatorOverloadAnnotation, op: Operator) -> bool {
    match annotation {
        OperatorOverloadAnnotation::Prefix => prefix_operator(op),
        OperatorOverloadAnnotation::Infix => infix_operator(op),
        OperatorOverloadAnnotation::Postfix => postfix_operator(op),
    }
}

impl PrefixOperatorKind {
    /// The prefix operator written `operator`: `*` takes a reference and
    /// `&` dereferences.
    pub fn from_operator(operator: Operator) -> (res: Self)
        requires
            prefix_operator(operator),
        ensures
            operator == Operator::Mul ==> res == PrefixOperatorKind::Reference,
            operator == Operator::BitAnd ==> res == PrefixOperatorKind::Dereference,
            operator == Operator::Increment ==> res == PrefixOperatorKind::Increment,
            operator == Operator::Decrement ==> res == PrefixOperatorKind::Decrement,
            operator == Operator::Add ==> res == PrefixOperatorKind::Add,
            operator == Operator::Sub ==> res == PrefixOperatorKind::Sub,
            operator == Operator::Question ==> res == PrefixOperatorKind::Question,
            operator == Operator::Exclamation ==> res == PrefixOperatorKind::Exclamation,
            operator == Operator::BitNot ==> res == PrefixOperatorKind::BitNot,
    {
        match operator {
            Operator::Increment => PrefixOperatorKind::Increment,
            Operator::Decrement => PrefixOperatorKind::Decrement,
            Operator::Add => PrefixOperatorKind::Add,
            Operator::Sub => PrefixOperatorKind::Sub,
            Operator::Mul => PrefixOperatorKind::Reference,
            Operator::BitAnd => PrefixOperatorKind::Dereference,
            Operator::Question => PrefixOperatorKind::Question,
            Operator::Exclamation => PrefixOperatorKind::Exclamation,
            _ => PrefixOperatorKind::BitNot,
        }
    }
}

impl InfixOperatorKind {
    /// The infix operator written `operator`.
    pub fn from_operator(operator: Operator) -> (res: Self)
        requires
            infix_operator(operator),
        ensures
            operator == Operator::Dot ==> res == InfixOperatorKind::Dot,
            operator == Operator::Exclamation ==> res == InfixOperatorKind::Exclamation,
            operator == Operator::Question ==> res == InfixOperatorKind::Question,
            operator == Operator::Pow ==> res == InfixOperatorKind::Pow,
            operator == Operator::IntDiv ==> res == InfixOperatorKind::IntDiv,
            operator == Operator::Mul ==> res == InfixOperatorKind::Mul,
            operator == Operator::Div ==> res == InfixOperatorKind::Div,
            operator == Operator::Mod ==> res == InfixOperatorKind::Mod,
            operator == Operator::Add ==> res == InfixOperatorKind::Add,
            operator == Operator::Sub ==> res == InfixOperatorKind::Sub,
            operator == Operator::BitShiftLeft ==> res == InfixOperatorKind::BitShiftLeft,
            operator == Operator::BitShiftRight ==> res == InfixOperatorKind::BitShiftRight,
            operator == Operator::Gt ==> res == InfixOperatorKind::Gt,
            operator == Operator::Gte ==> res == InfixOperatorKind::Gte,
            operator == Operator::Lt ==> res == InfixOperatorKind::Lt,
            operator == Operator::Lte ==> res == InfixOperatorKind::Lte,
            operator == Operator::Eq ==> res == InfixOperatorKind::Eq,
            operator == Operator::Teq ==> res == InfixOperatorKind::Teq,
            operator == Operator::Neq ==> res == InfixOperatorKind::Neq,
            operator == Operator::BitAnd ==> res == InfixOperatorKind::BitAnd,
            operator == Operator::BitXor ==> res == InfixOperatorKind::BitXor,
            operator == Operator::BitOr ==> res == InfixOperatorKind::BitOr,
            operator == Operator::And ==> res == InfixOperatorKind::And,
            operator == Operator::Or ==> res == InfixOperatorKind::Or,
    {
        match operator {
            Operator::Dot => InfixOperatorKind::Dot,
            Operator::Exclamation => InfixOperatorKind::Exclamation,
            Operator::Question => InfixOperatorKind::Question,
            Operator::Pow => InfixOperatorKind::Pow,
            Operator::IntDiv => InfixOperatorKind::IntDiv,
            Operator::Mul => InfixOperatorKind::Mul,
            Operator::Div => InfixOperatorKind::Div,
            Operator::Mod => InfixOperatorKind::Mod,
            Operator::Add => InfixOperatorKind::Add,
            Operator::Sub => InfixOperatorKind::Sub,
            Operator::BitShiftLeft => InfixOperatorKind::BitShiftLeft,
            Operator::BitShiftRight => InfixOperatorKind::BitShiftRight,
            Operator::Gt => InfixOperatorKind::Gt,
            Operator::Gte => InfixOperatorKind::Gte,
            Operator::Lt => InfixOperatorKind::Lt,
            Operator::Lte => InfixOperatorKind::Lte,
            Operator::Eq => InfixOperatorKind::Eq,
            Operator::Teq => InfixOperatorKind::Teq,
            Operator::Neq => InfixOperatorKind::Neq,
            Operator::BitAnd => InfixOperatorKind::BitAnd,
            Operator::BitXor => InfixOperatorKind::BitXor,
            Operator::BitOr => InfixOperatorKind::BitOr,
            Operator::And => InfixOperatorKind::And,
            _ => InfixOperatorKind::Or,
        }
    }
}

impl PostfixOperatorKind {
    /// The postfix operator written `operator`.
    pub fn from_operator(operator: Operator) -> (res: Self)
        requires
            postfix_operator(operator),
        ensures
            operator == Operator::Question ==> res == PostfixOperatorKind::Question,
            operator == Operator::Exclamation ==> res == PostfixOperatorKind::Exclamation,
            operator == Operator::Increment ==> res == PostfixOperatorKind::Increment,
            operator == Operator::Decrement ==> res == PostfixOperatorKind::Decrement,
    {
        match operator {
            Operator::Question => PostfixOperatorKind::Question,
            Operator::Exclamation => PostfixOperatorKind::Exclamation,
            Operator::Increment => PostfixOperatorKind::Increment,
            _ => PostfixOperatorKind::Decrement,
        }
    }
}

} // verus!
